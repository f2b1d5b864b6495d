//! Registers of the machine, and the interpreter that moves them.

use crate::cache::CachesModel;
use crate::memory::{self, AccessModel, HecateMemory, MemoryModel, MemoryRequest, RequestModel};
use crate::stats::{self, RunStats, StatsModel};
use rvsim::MemoryAccess;
use std::cell::RefCell;
use vstd::prelude::*;

verus! {

/// The registers: integers, floating point, program counter, control and reservation.
#[derive(Debug, Clone, Copy)]
pub struct CpuSnapshot {
    pub x: [u32; 32],
    pub f: [u64; 32],
    pub pc: u32,
    pub fcsr: u32,
    pub reservation: Option<u32>,
}

/// What the registers hold.
#[verifier::ext_equal]
pub ghost struct CpuModel {
    pub x: Seq<u32>,
    pub f: Seq<u64>,
    pub pc: u32,
    pub fcsr: u32,
    pub reservation: Option<u32>,
}

impl CpuModel {
    /// All registers zero, and execution at `pc`.
    pub open spec fn start(pc: u32) -> CpuModel {
        CpuModel {
            x: Seq::new(32, |i: int| 0u32),
            f: Seq::new(32, |i: int| 0u64),
            pc,
            fcsr: 0,
            reservation: None,
        }
    }
}

impl View for CpuSnapshot {
    type V = CpuModel;

    open spec fn view(&self) -> CpuModel {
        CpuModel {
            x: self.x@,
            f: self.f@,
            pc: self.pc,
            fcsr: self.fcsr,
            reservation: self.reservation,
        }
    }
}

impl CpuSnapshot {
    /// All registers zero, and execution at `pc`.
    pub fn new(pc: u32) -> (cpu: Self)
        ensures
            cpu@ == CpuModel::start(pc),
    {
        CpuSnapshot { x: [0;32], f: [0;32], pc, fcsr: 0, reservation: None }
    }
}

/// Why the interpreter stopped.
#[derive(Debug, Clone, Copy, PartialEq, Eq, Structural)]
pub enum CpuStop {
    MisalignedFetch,
    IllegalFetch,
    IllegalInstruction,
    IllegalAccess,
    MisalignedAccess,
    Ecall,
    Ebreak,
    QuotaExceeded,
    /// The instruction at the last address has no next one.
    AddressSpaceEnd,
}

impl CpuStop {
    /// The stop with the number `code` among those of the interpreter, by its position.
    pub open spec fn of(code: u8) -> CpuStop {
        match code {
            0 => CpuStop::MisalignedFetch,
            1 => CpuStop::IllegalFetch,
            2 => CpuStop::IllegalInstruction,
            3 => CpuStop::IllegalAccess,
            4 => CpuStop::MisalignedAccess,
            5 => CpuStop::Ecall,
            6 => CpuStop::Ebreak,
            _ => CpuStop::QuotaExceeded,
        }
    }

    fn from_code(code: u8) -> (stop: Self)
        ensures
            stop == CpuStop::of(code),
    {
        match code {
            0 => CpuStop::MisalignedFetch,
            1 => CpuStop::IllegalFetch,
            2 => CpuStop::IllegalInstruction,
            3 => CpuStop::IllegalAccess,
            4 => CpuStop::MisalignedAccess,
            5 => CpuStop::Ecall,
            6 => CpuStop::Ebreak,
            _ => CpuStop::QuotaExceeded,
        }
    }

    /// The name of the stop.
    pub open spec fn text(self) -> Seq<char> {
        match self {
            CpuStop::MisalignedFetch => "MisalignedFetch"@,
            CpuStop::IllegalFetch => "IllegalFetch"@,
            CpuStop::IllegalInstruction => "IllegalInstruction"@,
            CpuStop::IllegalAccess => "IllegalAccess"@,
            CpuStop::MisalignedAccess => "MisalignedAccess"@,
            CpuStop::Ecall => "Ecall"@,
            CpuStop::Ebreak => "Ebreak"@,
            CpuStop::QuotaExceeded => "QuotaExceeded"@,
            CpuStop::AddressSpaceEnd => "AddressSpaceEnd"@,
        }
    }

    /// The name of the stop.
    pub fn name(&self) -> (name: String)
        ensures
            name@ == self.text(),
    {
        match *self {
            CpuStop::MisalignedFetch => "MisalignedFetch".to_owned(),
            CpuStop::IllegalFetch => "IllegalFetch".to_owned(),
            CpuStop::IllegalInstruction => "IllegalInstruction".to_owned(),
            CpuStop::IllegalAccess => "IllegalAccess".to_owned(),
            CpuStop::MisalignedAccess => "MisalignedAccess".to_owned(),
            CpuStop::Ecall => "Ecall".to_owned(),
            CpuStop::Ebreak => "Ebreak".to_owned(),
            CpuStop::QuotaExceeded => "QuotaExceeded".to_owned(),
            CpuStop::AddressSpaceEnd => "AddressSpaceEnd".to_owned(),
        }
    }
}

/// The clock of the machine: it runs on the counters, up to a number of instructions.
#[derive(Debug, Clone, Copy)]
pub struct HecateClock {
    pub max_instructions: Option<u64>,
}

/// The counters after one instruction.
pub open spec fn progressed(before: StatsModel) -> StatsModel {
    StatsModel {
        instret: before.instret.wrapping_add(1),
        cycles: before.cycles.wrapping_add(1),
        ..before
    }
}

impl HecateClock {
    pub fn new(max_instructions: Option<u64>) -> (clock: Self)
        ensures
            clock.max_instructions == max_instructions,
    {
        HecateClock { max_instructions }
    }

    pub fn set_max_instructions(&mut self, max_instructions: Option<u64>)
        ensures
            final(self).max_instructions == max_instructions,
    {
        self.max_instructions = max_instructions;
    }

    pub fn read_cycle(&self, stats: &RunStats) -> (cycles: u64)
        ensures
            cycles == stats.cycles,
    {
        stats.cycles
    }

    pub fn read_time(&self, stats: &RunStats) -> (time: u64)
        ensures
            time == stats.cycles,
    {
        stats.cycles
    }

    pub fn read_instret(&self, stats: &RunStats) -> (instret: u64)
        ensures
            instret == stats.instret,
    {
        stats.instret
    }

    /// Counts one instruction.
    pub fn progress(&mut self, stats: &mut RunStats)
        ensures
            *final(self) == *old(self),
            final(stats)@ == progressed(old(stats)@),
    {
        stats.instret = stats.instret.wrapping_add(1);
        stats.cycles = stats.cycles.wrapping_add(1);
    }

    /// Whether another instruction may run.
    pub fn check_quota(&self, stats: &RunStats) -> (open: bool)
        ensures
            open == (match self.max_instructions {
                Some(max) => stats.instret < max,
                None => true,
            }),
    {
        match self.max_instructions {
            Some(max) => stats.instret < max,
            None => true,
        }
    }
}

/// The shared cell of `std`, in which both sides of the interpreter find the counters.
#[verifier::external_type_specification]
#[verifier::external_body]
#[verifier::reject_recursive_types(T)]
pub struct ExRefCell<T: ?Sized>(std::cell::RefCell<T>);

/// A decoded instruction of `rvsim`.
#[verifier::external_type_specification]
#[verifier::external_body]
pub struct ExOp(rvsim::Op);

/// A memory access of `rvsim`.
#[verifier::external_type_specification]
#[verifier::external_body]
#[verifier::reject_recursive_types(T)]
pub struct ExMemoryAccess<'a, T: Copy + 'a>(rvsim::MemoryAccess<'a, T>);

/// The memory as the interpreter reaches it.
struct MemoryPort<'a> {
    memory: &'a mut HecateMemory,
    shared: &'a RefCell<RunStats>,
}

/// The clock as the interpreter reaches it.
struct ClockPort<'a> {
    clock: HecateClock,
    shared: &'a RefCell<RunStats>,
}

impl<'a> rvsim::Memory for MemoryPort<'a> {
    /// Hands the access to `HecateMemory::access`. `rvsim`'s own memory on byte slices turns
    /// values, of eight bytes at most, into bytes and back; it reads and writes a value in place,
    /// which is why that place is aligned.
    #[verifier::external_body]
    fn access<T: Copy>(&mut self, addr: u32, access: MemoryAccess<T>) -> bool {
        let size = std::mem::size_of::<T>();
        let mut raw = [0u8; 16];
        let start = raw.as_ptr().align_offset(8);
        let place = &mut raw[start..][..size];
        let request = match access {
            MemoryAccess::Exec(_) => MemoryRequest::Exec { size: size as u32 },
            MemoryAccess::Load(_) => MemoryRequest::Load { size: size as u32 },
            MemoryAccess::Store(value) => {
                rvsim::Memory::access(&mut *place, 0, MemoryAccess::Store(value));
                MemoryRequest::Store { bytes: place.to_vec() }
            },
        };
        let reply = self.memory.access(addr, request, &mut self.shared.borrow_mut());
        reply.map(|bytes| place.copy_from_slice(&bytes)).is_some()
            && rvsim::Memory::access(place, 0, access)
    }
}

impl<'a> rvsim::Clock for ClockPort<'a> {
    /// `HecateClock::read_cycle` on the shared counters.
    #[verifier::external_body]
    fn read_cycle(&self) -> u64 {
        self.clock.read_cycle(&self.shared.borrow())
    }

    /// `HecateClock::read_time` on the shared counters.
    #[verifier::external_body]
    fn read_time(&self) -> u64 {
        self.clock.read_time(&self.shared.borrow())
    }

    /// `HecateClock::read_instret` on the shared counters.
    #[verifier::external_body]
    fn read_instret(&self) -> u64 {
        self.clock.read_instret(&self.shared.borrow())
    }

    /// `HecateClock::progress` on the shared counters.
    #[verifier::external_body]
    fn progress(&mut self, _op: &rvsim::Op) {
        self.clock.progress(&mut self.shared.borrow_mut())
    }

    /// `HecateClock::check_quota` on the shared counters.
    #[verifier::external_body]
    fn check_quota(&self) -> bool {
        self.clock.check_quota(&self.shared.borrow())
    }
}

/// A machine after the interpreter stopped, and the accesses to memory that it made.
pub ghost struct InterpOutcome {
    pub stop: CpuStop,
    pub cpu: CpuModel,
    pub memory: MemoryModel,
    pub stats: StatsModel,
    pub accesses: Seq<AccessModel>,
}

/// What `rvsim::Interp::run` makes of a machine that may run until `max` instructions are
/// counted.
pub uninterp spec fn interp_run(
    cpu: CpuModel,
    memory: MemoryModel,
    stats: StatsModel,
    max: u64,
) -> InterpOutcome;

/// Whether `rvsim::Op::parse` takes `word` for an instruction.
pub uninterp spec fn parses(word: u32) -> bool;

/// Calls `rvsim::Op::parse`; whether it takes the word for an instruction is named by `parses`.
#[verifier::external_body]
fn is_instruction(word: u32) -> (known: bool)
    ensures
        known == parses(word),
{
    rvsim::Op::parse(word).is_some()
}

/// The fields of the counters that the interpreter moves, in `after`, and all others as in
/// `before`.
pub open spec fn only_run_counters_moved(before: StatsModel, after: StatsModel) -> bool {
    after == StatsModel {
        cycles: after.cycles,
        instret: after.instret,
        memory_access_count: after.memory_access_count,
        instruction_fetches: after.instruction_fetches,
        data_loads: after.data_loads,
        data_stores: after.data_stores,
        cache_hits: after.cache_hits,
        ..before
    }
}

/// Whether `after` can come from `before` by reads and stores: the line size, the costs and the
/// capacities stay, and well-formed caches stay well-formed.
pub open spec fn same_caches(before: CachesModel, after: CachesModel) -> bool {
    &&& after.line_size == before.line_size
    &&& after.l1_latency == before.l1_latency
    &&& after.l2_latency == before.l2_latency
    &&& after.l3_latency == before.l3_latency
    &&& after.memory_latency == before.memory_latency
    &&& after.store_latency == before.store_latency
    &&& after.l1i.capacity == before.l1i.capacity
    &&& after.l1d.capacity == before.l1d.capacity
    &&& after.l2.capacity == before.l2.capacity
    &&& after.l3.capacity == before.l3.capacity
    &&& before.wf() ==> after.wf()
}

/// The instruction that calls the system.
pub const ECALL: u32 = 0x0000_0073;

/// The instruction that breaks.
pub const EBREAK: u32 = 0x0010_0073;

/// The fetch of the instruction at `pc`.
pub open spec fn fetch(pc: u32) -> AccessModel {
    AccessModel { addr: pc, request: RequestModel::Exec { size: 4 } }
}

/// What the interpreter does with its first instruction, as far as that ends the run: an
/// instruction that was never written cannot be fetched; a call of the system and a break are
/// fetched and counted, and execution stands behind them.
pub open spec fn first_stop(
    cpu: CpuModel,
    memory: MemoryModel,
    stats: StatsModel,
) -> Option<InterpOutcome> {
    let accesses = seq![fetch(cpu.pc)];
    let fetched = memory.accessed_all(accesses);
    let counted = memory.counted_all(accesses, stats);
    let word = word_at(memory.bytes, cpu.pc);
    if !memory::mapped(memory.bytes, cpu.pc, 4) {
        Some(
            InterpOutcome {
                stop: CpuStop::IllegalFetch,
                cpu,
                memory: fetched,
                stats: counted,
                accesses,
            },
        )
    } else if (word == ECALL || word == EBREAK) && cpu.pc < LAST_WORD {
        Some(
            InterpOutcome {
                stop: if word == ECALL {
                    CpuStop::Ecall
                } else {
                    CpuStop::Ebreak
                },
                cpu: CpuModel { pc: (cpu.pc + 4) as u32, ..cpu },
                memory: fetched,
                stats: progressed(counted),
                accesses,
            },
        )
    } else {
        None
    }
}

/// The number of four bytes at `addr`, the low byte first.
pub open spec fn word_at(bytes: Map<u32, u8>, addr: u32) -> u32 {
    let b = memory::bytes_at(bytes, addr, 4);
    (b[0] + 0x100 * b[1] + 0x1_0000 * b[2] + 0x100_0000 * b[3]) as u32
}

/// The last address at which an instruction of four bytes fits.
pub const LAST_WORD: u32 = 0xffff_fffc;

/// A number of 32 bits with its sign.
pub open spec fn signed(n: u32) -> int {
    if n < 0x8000_0000 {
        n as int
    } else {
        n - 0x1_0000_0000
    }
}

/// Whether the instruction `word` jumps, so that execution does not go on behind it.
pub open spec fn jumps(cpu: CpuModel, word: u32) -> bool {
    let opcode = word % 128;
    let kind = word / 0x1000 % 8;
    let a = cpu.x[(word / 0x8000 % 32) as int];
    let b = cpu.x[(word / 0x10_0000 % 32) as int];
    if opcode == 0x6f {
        true
    } else if opcode == 0x67 {
        kind == 0
    } else if opcode == 0x63 {
        match kind {
            0 => a == b,
            1 => a != b,
            4 => signed(a) < signed(b),
            5 => signed(a) >= signed(b),
            6 => a < b,
            7 => a >= b,
            _ => false,
        }
    } else {
        false
    }
}

/// Whether execution would go on behind the last address there is.
pub open spec fn runs_out(cpu: CpuModel, memory: MemoryModel) -> bool {
    let word = word_at(memory.bytes, cpu.pc);
    cpu.pc >= LAST_WORD && memory::mapped(memory.bytes, cpu.pc, 4) && parses(word) && !jumps(
        cpu,
        word,
    )
}

/// Whether `outcome` is what one instruction makes of a machine: it is fetched first, memory and
/// counters change through its accesses, and it is counted unless it could not be fetched or
/// is none; an instruction that lets the run go on, calls the system or breaks is counted.
pub open spec fn one_instruction(
    memory: MemoryModel,
    stats: StatsModel,
    pc: u32,
    outcome: InterpOutcome,
) -> bool {
    let counted = memory.counted_all(outcome.accesses, stats);
    let goes_on = outcome.stop == CpuStop::QuotaExceeded || outcome.stop == CpuStop::Ecall
        || outcome.stop == CpuStop::Ebreak;
    &&& 1 <= outcome.accesses.len() <= 3
    &&& outcome.accesses[0] == fetch(pc)
    &&& outcome.memory == memory.accessed_all(outcome.accesses)
    &&& outcome.stats == counted && !goes_on || outcome.stats == progressed(counted)
}

/// Calls `rvsim::Interp::run`, which executes instructions of the program in `memory` until it
/// stops; the result is the position of the `rvsim::CpuError` in the list of its variants.
///
/// It may count one instruction, and stops for the quota behind it. The result, what becomes of
/// the machine and the accesses that are made are named by `interp_run`. Claimed besides, by
/// `one_instruction`: the instruction is fetched first, memory and counters change only through
/// the accesses and the clock, and which instructions are counted; and by `first_stop`, what is
/// done where the instruction cannot be fetched, calls the system or breaks. `rvsim` adds to its
/// program counter behind every instruction that does not jump; where that sum does not fit, the
/// call is left out.
#[verifier::external_body]
fn run_raw(
    cpu: &mut CpuSnapshot,
    memory: &mut HecateMemory,
    stats: &mut RunStats,
    max: u64,
) -> (code: u8)
    requires
        old(memory).caches.line_size > 0,
        max == old(stats).instret + 1,
        !runs_out(old(cpu)@, old(memory)@),
    ensures
        ({
            let outcome = interp_run(old(cpu)@, old(memory)@, old(stats)@, max);
            &&& outcome.stop == CpuStop::of(code)
            &&& outcome.cpu == final(cpu)@
            &&& outcome.memory == final(memory)@
            &&& outcome.stats == final(stats)@
            &&& one_instruction(old(memory)@, old(stats)@, old(cpu).pc, outcome)
            &&& first_stop(old(cpu)@, old(memory)@, old(stats)@) matches Some(stop) ==> outcome
                == stop
        }),
{
    let shared = RefCell::new(std::mem::take(stats));
    let clock = HecateClock { max_instructions: Some(max) };
    let f = cpu.f.map(rvsim::softfloat::Sf64);
    let CpuSnapshot { x, pc, fcsr, reservation, .. } = *cpu;
    let mut state = rvsim::CpuState { x, f, pc, fcsr, reservation };
    let mut port = MemoryPort { memory, shared: &shared };
    let mut ticks = ClockPort { clock, shared: &shared };
    let (error, _) = rvsim::Interp::new(&mut state, &mut port, &mut ticks).run();
    let rvsim::CpuState { x, f, pc, fcsr, reservation } = state;
    *cpu = CpuSnapshot { x, f: f.map(|value| value.0), pc, fcsr, reservation };
    *stats = shared.into_inner();
    error as u8
}

/// What becomes of a machine that executes instructions until it stops or `max` of them are
/// counted.
pub open spec fn run_to(
    cpu: CpuModel,
    memory: MemoryModel,
    stats: StatsModel,
    max: u64,
) -> InterpOutcome
    decreases u64::MAX - stats.instret,
{
    if stats.instret >= max {
        InterpOutcome { stop: CpuStop::QuotaExceeded, cpu, memory, stats, accesses: Seq::empty() }
    } else if runs_out(cpu, memory) {
        InterpOutcome {
            stop: CpuStop::AddressSpaceEnd,
            cpu,
            memory,
            stats,
            accesses: Seq::empty(),
        }
    } else {
        let one = interp_run(cpu, memory, stats, (stats.instret + 1) as u64);
        if one.stop == CpuStop::QuotaExceeded && one.stats.instret > stats.instret {
            let rest = run_to(one.cpu, one.memory, one.stats, max);
            InterpOutcome { accesses: one.accesses + rest.accesses, ..rest }
        } else {
            one
        }
    }
}

/// What a run that led from a machine to `outcome` costs: a cycle for each instruction that was
/// counted, and what the accesses cost.
pub open spec fn run_cost(memory: MemoryModel, stats: StatsModel, outcome: InterpOutcome) -> nat {
    (memory.cost_of_all(outcome.accesses) + outcome.stats.instret - stats.instret) as nat
}

/// Whether a run that led from a machine to `outcome` charged what it costs.
pub open spec fn charged(memory: MemoryModel, stats: StatsModel, outcome: InterpOutcome) -> bool {
    &&& stats.instret <= outcome.stats.instret
    &&& outcome.memory == memory.accessed_all(outcome.accesses)
    &&& outcome.stats.cycles == (stats.cycles + run_cost(memory, stats, outcome)) % stats::turn()
}

/// Accesses keep what `same_caches` says.
proof fn lemma_accesses_keep_caches(memory: MemoryModel, accesses: Seq<AccessModel>)
    requires
        memory.caches.line_size > 0,
    ensures
        same_caches(memory.caches, memory.accessed_all(accesses).caches),
    decreases accesses.len(),
{
    if accesses.len() > 0 {
        let front = memory.accessed_all(accesses.drop_last());
        let last = accesses.last();
        lemma_accesses_keep_caches(memory, accesses.drop_last());
        if front.caches.wf() {
            crate::cache::law_caches_kept(front.caches, last.addr, true);
            crate::cache::law_caches_kept(front.caches, last.addr, false);
        }
    }
}

/// One instruction keeps caches and sums, moves no other counters, and charges what it costs.
proof fn lemma_one_instruction(
    memory: MemoryModel,
    stats: StatsModel,
    pc: u32,
    outcome: InterpOutcome,
)
    requires
        memory.caches.line_size > 0,
        stats.instret < u64::MAX,
        one_instruction(memory, stats, pc, outcome),
    ensures
        led_to(memory, stats, outcome.memory, outcome.stats, outcome.accesses),
        stats.instret <= outcome.stats.instret <= stats.instret + 1,
        outcome.stop == CpuStop::QuotaExceeded || outcome.stop == CpuStop::Ecall || outcome.stop
            == CpuStop::Ebreak ==> outcome.stats.instret == stats.instret + 1,
        outcome.memory.caches.line_size > 0,
{
    reveal(led_to);
    lemma_accesses_keep_caches(memory, outcome.accesses);
    memory::law_accesses_cost(memory, outcome.accesses, stats);
    let counted = memory.counted_all(outcome.accesses, stats);
    stats::lemma_wraps_to_turns(counted.cycles, 1);
    stats::lemma_adds_up_to_turns(
        stats.cycles + memory.cost_of_all(outcome.accesses),
        counted.cycles as int,
        1,
    );
}

/// Whether execution would go on behind the last address there is.
fn would_run_out(cpu: &CpuSnapshot, memory: &HecateMemory) -> (out: bool)
    ensures
        out == runs_out(cpu@, memory@),
{
    if cpu.pc < LAST_WORD {
        return false;
    }
    let Some(bytes) = memory.read_mapped(cpu.pc, 4) else {
        return false;
    };
    let word: u32 = bytes[0] as u32 + 0x100 * bytes[1] as u32 + 0x1_0000 * bytes[2] as u32
        + 0x100_0000 * bytes[3] as u32;
    is_instruction(word) && !jumps_at(cpu, word)
}

/// A number of 32 bits with its sign.
fn to_signed(n: u32) -> (value: i64)
    ensures
        value == signed(n),
{
    if n < 0x8000_0000 {
        n as i64
    } else {
        n as i64 - 0x1_0000_0000
    }
}

/// Whether the instruction `word` jumps.
fn jumps_at(cpu: &CpuSnapshot, word: u32) -> (jump: bool)
    ensures
        jump == jumps(cpu@, word),
{
    let opcode: u32 = word % 128;
    let kind: u32 = word / 0x1000 % 8;
    let a: u32 = cpu.x[(word / 0x8000 % 32) as usize];
    let b: u32 = cpu.x[(word / 0x10_0000 % 32) as usize];
    if opcode == 0x6f {
        true
    } else if opcode == 0x67 {
        kind == 0
    } else if opcode == 0x63 {
        match kind {
            0 => a == b,
            1 => a != b,
            4 => to_signed(a) < to_signed(b),
            5 => to_signed(a) >= to_signed(b),
            6 => a < b,
            7 => a >= b,
            _ => false,
        }
    } else {
        false
    }
}

/// Whether a run of a machine, up to `max` instructions, kept to what holds of every run that
/// ended as `outcome`.
pub open spec fn run_kept(
    cpu: CpuModel,
    memory: MemoryModel,
    stats: StatsModel,
    max: u64,
    outcome: InterpOutcome,
) -> bool {
    &&& stats.instret >= max ==> outcome.stop == CpuStop::QuotaExceeded && outcome.cpu == cpu
        && outcome.memory == memory && outcome.stats == stats
    &&& outcome.stop == CpuStop::QuotaExceeded ==> outcome.stats.instret >= max
    &&& stats.instret <= outcome.stats.instret
    &&& stats.instret <= max ==> outcome.stats.instret <= max
    &&& outcome.stop == CpuStop::Ecall ==> outcome.stats.instret > stats.instret
    &&& outcome.stop == CpuStop::Ebreak ==> outcome.stats.instret > stats.instret
    &&& stats.instret < max ==> (first_stop(cpu, memory, stats) matches Some(stop) ==> outcome
        == stop)
    &&& only_run_counters_moved(stats, outcome.stats)
    &&& memory::accesses_add_up(stats) ==> memory::accesses_add_up(outcome.stats)
    &&& same_caches(memory.caches, outcome.memory.caches)
    &&& charged(memory, stats, outcome)
}

/// Whether a machine can come from another by executing instructions that made `accesses`.
#[verifier::opaque]
spec fn led_to(
    memory: MemoryModel,
    stats: StatsModel,
    after: MemoryModel,
    counters: StatsModel,
    accesses: Seq<AccessModel>,
) -> bool {
    &&& only_run_counters_moved(stats, counters)
    &&& memory::accesses_add_up(stats) ==> memory::accesses_add_up(counters)
    &&& same_caches(memory.caches, after.caches)
    &&& stats.instret <= counters.instret
    &&& after == memory.accessed_all(accesses)
    &&& counters.cycles == (stats.cycles + memory.cost_of_all(accesses) + counters.instret
        - stats.instret) % stats::turn()
}

proof fn lemma_led_further(
    memory: MemoryModel,
    stats: StatsModel,
    mid: MemoryModel,
    mid_stats: StatsModel,
    first: Seq<AccessModel>,
    after: MemoryModel,
    counters: StatsModel,
    second: Seq<AccessModel>,
)
    requires
        led_to(memory, stats, mid, mid_stats, first),
        led_to(mid, mid_stats, after, counters, second),
    ensures
        led_to(memory, stats, after, counters, first + second),
{
    reveal(led_to);
    memory::lemma_accesses_join(memory, first, second);
    stats::lemma_adds_up_to_turns(
        stats.cycles + memory.cost_of_all(first) + mid_stats.instret - stats.instret,
        mid_stats.cycles as int,
        mid.cost_of_all(second) + counters.instret - mid_stats.instret,
    );
}

/// A machine is led to itself without doing anything.
proof fn lemma_led_nowhere(memory: MemoryModel, stats: StatsModel)
    ensures
        led_to(memory, stats, memory, stats, Seq::empty()),
{
    reveal(led_to);
}

/// Executes one instruction.
fn execute_one(cpu: &mut CpuSnapshot, memory: &mut HecateMemory, stats: &mut RunStats) -> (stop:
    CpuStop)
    requires
        old(memory).caches.line_size > 0,
        old(stats).instret < u64::MAX,
        !runs_out(old(cpu)@, old(memory)@),
    ensures
        interp_run(old(cpu)@, old(memory)@, old(stats)@, (old(stats).instret + 1) as u64) == (
        InterpOutcome {
            stop,
            cpu: final(cpu)@,
            memory: final(memory)@,
            stats: final(stats)@,
            accesses: made_by(old(cpu)@, old(memory)@, old(stats)@),
        }),
        made_by(old(cpu)@, old(memory)@, old(stats)@).len() > 0,
        led_to(
            old(memory)@,
            old(stats)@,
            final(memory)@,
            final(stats)@,
            made_by(old(cpu)@, old(memory)@, old(stats)@),
        ),
        old(stats).instret <= final(stats).instret <= old(stats).instret + 1,
        stop == CpuStop::QuotaExceeded || stop == CpuStop::Ecall || stop == CpuStop::Ebreak
            ==> final(stats).instret == old(stats).instret + 1,
        first_stop(old(cpu)@, old(memory)@, old(stats)@) matches Some(outcome) ==> outcome
            == interp_run(old(cpu)@, old(memory)@, old(stats)@, (old(stats).instret + 1) as u64)
            && stop != CpuStop::QuotaExceeded,
        final(memory).caches.line_size > 0,
{
    let ghost (c, m, s) = (cpu@, memory@, stats@);
    let max: u64 = stats.instret + 1;
    let stop = CpuStop::from_code(run_raw(cpu, memory, stats, max));
    proof {
        lemma_one_instruction(m, s, c.pc, interp_run(c, m, s, max));
    }
    stop
}

/// The accesses that the next instruction makes.
spec fn made_by(cpu: CpuModel, memory: MemoryModel, stats: StatsModel) -> Seq<AccessModel> {
    interp_run(cpu, memory, stats, (stats.instret + 1) as u64).accesses
}

/// A run that made `accesses` and led to `outcome` is one that holds what every run holds.
proof fn lemma_run_kept(
    cpu: CpuModel,
    memory: MemoryModel,
    stats: StatsModel,
    max: u64,
    outcome: InterpOutcome,
)
    requires
        led_to(memory, stats, outcome.memory, outcome.stats, outcome.accesses),
        stats.instret >= max ==> outcome.stop == CpuStop::QuotaExceeded && outcome.cpu == cpu
            && outcome.memory == memory && outcome.stats == stats,
        outcome.stop == CpuStop::QuotaExceeded ==> outcome.stats.instret >= max,
        stats.instret <= max ==> outcome.stats.instret <= max,
        outcome.stop == CpuStop::Ecall || outcome.stop == CpuStop::Ebreak ==> outcome.stats.instret
            > stats.instret,
        stats.instret < max ==> (first_stop(cpu, memory, stats) matches Some(stop) ==> outcome
            == stop),
    ensures
        run_kept(cpu, memory, stats, max, outcome),
{
    reveal(led_to);
}

/// Executes instructions until the program stops or `max` of them are counted.
pub fn run_interp(
    cpu: &mut CpuSnapshot,
    memory: &mut HecateMemory,
    stats: &mut RunStats,
    max: u64,
) -> (stop: CpuStop)
    requires
        old(memory).caches.line_size > 0,
    ensures
        run_to(old(cpu)@, old(memory)@, old(stats)@, max).stop == stop,
        run_to(old(cpu)@, old(memory)@, old(stats)@, max).cpu == final(cpu)@,
        run_to(old(cpu)@, old(memory)@, old(stats)@, max).memory == final(memory)@,
        run_to(old(cpu)@, old(memory)@, old(stats)@, max).stats == final(stats)@,
        run_kept(
            old(cpu)@,
            old(memory)@,
            old(stats)@,
            max,
            run_to(old(cpu)@, old(memory)@, old(stats)@, max),
        ),
{
    let ghost mut made: Seq<AccessModel> = Seq::empty();
    let ghost (c0, m0, s0) = (cpu@, memory@, stats@);
    let ghost whole = run_to(c0, m0, s0, max);
    proof {
        lemma_led_nowhere(m0, s0);
        assert(made + whole.accesses == whole.accesses);
    }
    while stats.instret < max
        invariant
            memory.caches.line_size > 0,
            whole == run_to(c0, m0, s0, max),
            c0 == old(cpu)@,
            m0 == old(memory)@,
            s0 == old(stats)@,
            whole == (InterpOutcome {
                accesses: made + run_to(cpu@, memory@, stats@, max).accesses,
                ..run_to(cpu@, memory@, stats@, max)
            }),
            led_to(m0, s0, memory@, stats@, made),
            made.len() == 0 ==> cpu@ == c0 && memory@ == m0 && stats@ == s0,
            made.len() > 0 ==> s0.instret < stats.instret <= max && first_stop(c0, m0, s0) is None,
        decreases max - stats.instret,
    {
        if would_run_out(cpu, memory) {
            proof {
                assert(made + Seq::<AccessModel>::empty() == made);
                assert(made.len() == 0 ==> first_stop(c0, m0, s0) is None);
                lemma_run_kept(c0, m0, s0, max, whole);
            }
            return CpuStop::AddressSpaceEnd;
        }
        let ghost (c, m, s) = (cpu@, memory@, stats@);
        let stop = execute_one(cpu, memory, stats);
        let ghost new = made_by(c, m, s);
        let ghost rest = run_to(cpu@, memory@, stats@, max);
        proof {
            lemma_led_further(m0, s0, m, s, made, memory@, stats@, new);
        }
        if stop != CpuStop::QuotaExceeded {
            proof {
                assert(made.len() == 0 ==> made + new == new);
                lemma_run_kept(c0, m0, s0, max, whole);
            }
            return stop;
        }
        proof {
            assert(made + (new + rest.accesses) == (made + new) + rest.accesses);
            made = made + new;
        }
    }
    proof {
        assert(made + Seq::<AccessModel>::empty() == made);
        lemma_run_kept(c0, m0, s0, max, whole);
    }
    CpuStop::QuotaExceeded
}

/// A processor starts at its program counter with zero in every register and no reservation.
pub proof fn law_start(pc: u32)
    ensures
        ({
            let cpu = CpuModel::start(pc);
            &&& cpu.pc == pc
            &&& cpu.x.len() == 32 && cpu.f.len() == 32
            &&& forall|i: int| 0 <= i < 32 ==> cpu.x[i] == 0
            &&& forall|i: int| 0 <= i < 32 ==> cpu.f[i] == 0
            &&& cpu.fcsr == 0
            &&& cpu.reservation is None
        }),
{
}

/// Each reason to stop has its own name.
pub proof fn law_names_of_stops()
    ensures
        CpuStop::MisalignedFetch.text() == "MisalignedFetch"@,
        CpuStop::IllegalFetch.text() == "IllegalFetch"@,
        CpuStop::IllegalInstruction.text() == "IllegalInstruction"@,
        CpuStop::IllegalAccess.text() == "IllegalAccess"@,
        CpuStop::MisalignedAccess.text() == "MisalignedAccess"@,
        CpuStop::Ecall.text() == "Ecall"@,
        CpuStop::Ebreak.text() == "Ebreak"@,
        CpuStop::QuotaExceeded.text() == "QuotaExceeded"@,
        CpuStop::AddressSpaceEnd.text() == "AddressSpaceEnd"@,
{
}

/// One instruction adds one to the instructions and one to the cycles, and nothing to any other
/// counter.
pub proof fn law_progress(before: StatsModel)
    requires
        before.instret < u64::MAX,
        before.cycles < u64::MAX,
    ensures
        progressed(before) == (StatsModel {
            instret: (before.instret + 1) as u64,
            cycles: (before.cycles + 1) as u64,
            ..before
        }),
{
}

/// Four bytes make an instruction word with the first of them lowest.
pub proof fn law_words(bytes: Map<u32, u8>, addr: u32, word: u32)
    requires
        addr <= LAST_WORD,
        bytes.contains_key(addr) && bytes[addr] == word % 256,
        bytes.contains_key((addr + 1) as u32) && bytes[(addr + 1) as u32] == word / 0x100 % 256,
        bytes.contains_key((addr + 2) as u32) && bytes[(addr + 2) as u32] == word / 0x1_0000 % 256,
        bytes.contains_key((addr + 3) as u32) && bytes[(addr + 3) as u32] == word / 0x100_0000,
    ensures
        word_at(bytes, addr) == word,
{
}

/// Which instructions do not go on behind themselves: jumps, jumps to a register, and branches
/// whose condition holds of the two registers that they name.
#[verifier::rlimit(50)]
pub proof fn law_jumps(cpu: CpuModel, opcode: nat, rd: nat, funct3: nat, rs1: nat, rs2: nat, f: nat)
    requires
        opcode < 128,
        rd < 32,
        funct3 < 8,
        rs1 < 32,
        rs2 < 32,
        f < 128,
    ensures
        ({
            let word = crate::disasm::register_word(opcode, rd, funct3, rs1, rs2, f);
            let a = cpu.x[rs1 as int];
            let b = cpu.x[rs2 as int];
            let a_signed = if a < 0x8000_0000 {
                a as int
            } else {
                a - 0x1_0000_0000
            };
            let b_signed = if b < 0x8000_0000 {
                b as int
            } else {
                b - 0x1_0000_0000
            };
            &&& opcode == 0x6f ==> jumps(cpu, word)
            &&& opcode == 0x67 ==> jumps(cpu, word) == (funct3 == 0)
            &&& opcode == 0x63 && funct3 == 0 ==> jumps(cpu, word) == (a == b)
            &&& opcode == 0x63 && funct3 == 1 ==> jumps(cpu, word) == (a != b)
            &&& opcode == 0x63 && (funct3 == 2 || funct3 == 3) ==> !jumps(cpu, word)
            &&& opcode == 0x63 && funct3 == 4 ==> jumps(cpu, word) == (a_signed < b_signed)
            &&& opcode == 0x63 && funct3 == 5 ==> jumps(cpu, word) == (a_signed >= b_signed)
            &&& opcode == 0x63 && funct3 == 6 ==> jumps(cpu, word) == (a < b)
            &&& opcode == 0x63 && funct3 == 7 ==> jumps(cpu, word) == (a >= b)
            &&& opcode != 0x6f && opcode != 0x67 && opcode != 0x63 ==> !jumps(cpu, word)
        }),
{
    let n = opcode + rd * 0x80 + funct3 * 0x1000 + rs1 * 0x8000 + rs2 * 0x10_0000 + f * 0x200_0000;
    assert(n <= u32::MAX);
    assert(n % 128 == opcode);
    assert(n / 0x1000 == funct3 + 8 * (rs1 + 32 * rs2 + 1024 * f));
    assert(n / 0x8000 == rs1 + 32 * (rs2 + 32 * f));
    assert(n / 0x10_0000 == rs2 + 32 * f);
}

/// Execution runs out at an instruction in one of the last four addresses that is there as a
/// whole, is known, and does not jump.
pub proof fn law_runs_out(cpu: CpuModel, memory: MemoryModel)
    ensures
        cpu.pc < 0xffff_fffc ==> !runs_out(cpu, memory),
        cpu.pc >= 0xffff_fffc && memory::mapped(memory.bytes, cpu.pc, 4) ==> (runs_out(cpu, memory)
            <==> parses(word_at(memory.bytes, cpu.pc)) && !jumps(
            cpu,
            word_at(memory.bytes, cpu.pc),
        )),
        !memory::mapped(memory.bytes, cpu.pc, 4) ==> !runs_out(cpu, memory),
{
}

/// A run goes instruction by instruction: with room for another one and somewhere to go on, it
/// does that one, and goes on from there if that one says so and was counted. Without room it
/// stops for the quota, and with nowhere to go on for that, and changes nothing.
pub proof fn law_run_by_instructions(
    cpu: CpuModel,
    memory: MemoryModel,
    stats: StatsModel,
    max: u64,
)
    ensures
        ({
            let run = run_to(cpu, memory, stats, max);
            let one = interp_run(cpu, memory, stats, (stats.instret + 1) as u64);
            let rest = run_to(one.cpu, one.memory, one.stats, max);
            let counted = one.stats.instret > stats.instret;
            &&& stats.instret >= max ==> run.stop == CpuStop::QuotaExceeded && run.cpu == cpu
                && run.memory == memory && run.stats == stats && run.accesses.len() == 0
            &&& stats.instret < max && runs_out(cpu, memory) ==> run.stop
                == CpuStop::AddressSpaceEnd && run.cpu == cpu && run.memory == memory && run.stats
                == stats && run.accesses.len() == 0
            &&& stats.instret < max && !runs_out(cpu, memory) && one.stop == CpuStop::QuotaExceeded
                && counted ==> run.stop == rest.stop && run.cpu == rest.cpu && run.memory
                == rest.memory && run.stats == rest.stats && run.accesses == one.accesses
                + rest.accesses
            &&& stats.instret < max && !runs_out(cpu, memory) && !(one.stop
                == CpuStop::QuotaExceeded && counted) ==> run == one
        }),
{
}

/// A run that stopped for its quota, and is then given more room, ends as one that had that room
/// from the start.
pub proof fn law_runs_go_on(
    cpu: CpuModel,
    memory: MemoryModel,
    stats: StatsModel,
    first: u64,
    max: u64,
)
    requires
        first <= max,
        run_to(cpu, memory, stats, first).stop == CpuStop::QuotaExceeded,
        run_to(cpu, memory, stats, first).stats.instret >= first,
    ensures
        ({
            let part = run_to(cpu, memory, stats, first);
            let rest = run_to(part.cpu, part.memory, part.stats, max);
            let whole = run_to(cpu, memory, stats, max);
            &&& whole.stop == rest.stop
            &&& whole.cpu == rest.cpu
            &&& whole.memory == rest.memory
            &&& whole.stats == rest.stats
        }),
    decreases u64::MAX - stats.instret,
{
    if stats.instret < first && !runs_out(cpu, memory) {
        let one = interp_run(cpu, memory, stats, (stats.instret + 1) as u64);
        if one.stop == CpuStop::QuotaExceeded && one.stats.instret > stats.instret {
            law_runs_go_on(one.cpu, one.memory, one.stats, first, max);
        } else {
            assert(run_to(cpu, memory, stats, first) == one);
            assert(run_to(cpu, memory, stats, max) == one);
        }
    }
}

} // verus!
