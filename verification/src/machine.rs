//! A processor with its memory, and the system calls that its programs make.

use crate::config::{self, ConfigModel, SimConfig};
use crate::cpu::{self, CpuModel, CpuSnapshot, CpuStop};
use crate::memory::{self, HecateMemory, MemoryModel};
use crate::stats::{self, RunStats, StatsModel};
use std::collections::HashSet;
use vstd::prelude::*;

verus! {

broadcast use vstd::std_specs::hash::group_hash_axioms;

/// The number of the call that writes bytes out.
pub const SYS_WRITE: u32 = 64;

/// The number of the call that ends the program.
pub const SYS_EXIT: u32 = 93;

/// Registers, memory, counters, and the bytes that programs have written out and nobody has
/// taken yet.
#[derive(Debug)]
pub struct Machine {
    pub cpu: CpuSnapshot,
    pub memory: HecateMemory,
    pub stats: RunStats,
    pub output: Vec<u8>,
}

/// What a machine holds.
pub ghost struct MachineModel {
    pub cpu: CpuModel,
    pub memory: MemoryModel,
    pub stats: StatsModel,
    pub output: Seq<u8>,
}

impl View for Machine {
    type V = MachineModel;

    open spec fn view(&self) -> MachineModel {
        MachineModel {
            cpu: self.cpu@,
            memory: self.memory@,
            stats: self.stats@,
            output: self.output@,
        }
    }
}

/// Why a run came back.
#[derive(Debug, Clone, Copy, PartialEq, Eq, Structural)]
pub enum RunEnd {
    /// The program asked to end.
    Exited,
    /// A system call returned to an address with a breakpoint.
    Breakpoint,
    /// The interpreter stopped.
    Stopped(CpuStop),
}

/// The counters after a system call with the number `code` that costs `cycles`.
pub open spec fn call_counted(before: StatsModel, code: u32, cycles: u64) -> StatsModel {
    StatsModel {
        instret: before.instret.wrapping_add(1),
        syscall_count: before.syscall_count.wrapping_add(1),
        syscall_cycles: before.syscall_cycles.wrapping_add(cycles),
        cycles: before.cycles.wrapping_add(cycles),
        syscall_hits: stats::bumped(before.syscall_hits, code, 1),
        syscall_cycle_totals: stats::bumped(before.syscall_cycle_totals, code, cycles),
        ..before
    }
}

/// The counters after a system call moved `bytes` bytes at a cost of `cycles`.
pub open spec fn io_counted(before: StatsModel, code: u32, cycles: u64, bytes: u64) -> StatsModel {
    if cycles == 0 && bytes == 0 {
        before
    } else {
        StatsModel {
            io_cycles: before.io_cycles.wrapping_add(cycles),
            io_bytes_written: before.io_bytes_written.wrapping_add(bytes),
            syscall_cycles: before.syscall_cycles.wrapping_add(cycles),
            cycles: before.cycles.wrapping_add(cycles),
            syscall_cycle_totals: stats::bumped(before.syscall_cycle_totals, code, cycles),
            ..before
        }
    }
}

impl CpuModel {
    /// Whether a call of the number `code` is a write to one of the two output streams.
    pub open spec fn writes_out(self, code: u32) -> bool {
        code == SYS_WRITE && (self.x[10] == 1 || self.x[10] == 2)
    }

    /// The registers after a system call: a write answers how many bytes it took.
    pub open spec fn answered(self, code: u32) -> CpuModel {
        if self.writes_out(code) {
            CpuModel { x: self.x.update(10, self.x[12]), ..self }
        } else if code == SYS_WRITE {
            CpuModel { x: self.x.update(10, 0), ..self }
        } else {
            self
        }
    }

    /// How many bytes a system call moves.
    pub open spec fn io_bytes(self, code: u32) -> u64 {
        if self.writes_out(code) {
            self.x[12] as u64
        } else {
            0
        }
    }

    /// The registers with execution one instruction further on.
    pub open spec fn advanced(self) -> CpuModel {
        CpuModel { pc: self.pc.wrapping_add(4), ..self }
    }
}

impl MachineModel {
    /// The number of the system call that the program makes.
    pub open spec fn call(self) -> u32 {
        self.cpu.x[17]
    }

    /// After the system call that the program makes was accounted for and served.
    pub open spec fn served(self, config: ConfigModel) -> MachineModel {
        let code = self.call();
        let bytes = self.cpu.io_bytes(code);
        let counted = call_counted(self.stats, code, config.cycles_for(code));
        MachineModel {
            cpu: self.cpu.answered(code),
            memory: self.memory,
            stats: io_counted(counted, code, bytes.wrapping_mul(config.io_cycles_per_byte), bytes),
            output: if self.cpu.writes_out(code) {
                self.output + memory::bytes_at(
                    self.memory.bytes,
                    self.cpu.x[11],
                    self.cpu.x[12] as nat,
                )
            } else {
                self.output
            },
        }
    }

    /// After the interpreter ran until it stopped or `cap` instructions were counted.
    pub open spec fn interpreted(self, cap: u64) -> MachineModel {
        let outcome = cpu::run_to(self.cpu, self.memory, self.stats, cap);
        MachineModel {
            cpu: outcome.cpu,
            memory: outcome.memory,
            stats: outcome.stats,
            output: self.output,
        }
    }

    /// Why the interpreter stopped.
    pub open spec fn stop(self, cap: u64) -> CpuStop {
        cpu::run_to(self.cpu, self.memory, self.stats, cap).stop
    }

    /// Whether a run up to `cap` instructions cannot fetch its first instruction.
    pub open spec fn cannot_fetch(self, cap: u64) -> bool {
        self.stats.instret < cap && !memory::mapped(self.memory.bytes, self.cpu.pc, 4)
    }

    /// Whether a run up to `cap` instructions starts with the request to end the program.
    pub open spec fn asks_to_end(self, cap: u64) -> bool {
        &&& self.stats.instret < cap
        &&& memory::mapped(self.memory.bytes, self.cpu.pc, 4)
        &&& cpu::word_at(self.memory.bytes, self.cpu.pc) == cpu::ECALL
        &&& self.cpu.pc < cpu::LAST_WORD
        &&& self.call() == SYS_EXIT
    }

    /// What the system call that the program makes costs.
    pub open spec fn call_cost(self, config: ConfigModel) -> nat {
        let code = self.call();
        let extra = self.cpu.io_bytes(code).wrapping_mul(config.io_cycles_per_byte);
        (config.cycles_for(code) + extra) as nat
    }

    /// Where the part of a run up to the next system call leads, and why the run ends there, if
    /// it does: the interpreter runs, and the call is served, unless it ends the program or
    /// returns to a breakpoint. The interpreter counts the call and moves execution behind it
    /// before it stops; serving the call counts it once more and moves execution one instruction
    /// further, so that the instruction behind a call is skipped. A run also ends, as for its
    /// quota, when the counter of instructions wraps around.
    pub open spec fn turned(self, config: ConfigModel, cap: u64, breakpoints: Set<u32>) -> (
        MachineModel,
        Option<RunEnd>,
    ) {
        let ran = self.interpreted(cap);
        let served = ran.served(config);
        let next = MachineModel { cpu: served.cpu.advanced(), ..served };
        if self.stop(cap) != CpuStop::Ecall {
            (ran, Some(RunEnd::Stopped(self.stop(cap))))
        } else if ran.call() == SYS_EXIT {
            (served, Some(RunEnd::Exited))
        } else if breakpoints.contains(next.cpu.pc) {
            (next, Some(RunEnd::Breakpoint))
        } else if next.stats.instret <= self.stats.instret {
            (next, Some(RunEnd::Stopped(CpuStop::QuotaExceeded)))
        } else {
            (next, None)
        }
    }

    /// What the part of a run up to the next system call costs.
    pub open spec fn turn_cost(self, config: ConfigModel, cap: u64) -> nat {
        let outcome = cpu::run_to(self.cpu, self.memory, self.stats, cap);
        cpu::run_cost(self.memory, self.stats, outcome) + (if outcome.stop == CpuStop::Ecall {
            self.interpreted(cap).call_cost(config)
        } else {
            0
        })
    }

    /// Where a run ends, and why: it goes from system call to system call until there is a
    /// reason to end.
    pub open spec fn driven(self, config: ConfigModel, cap: u64, breakpoints: Set<u32>) -> (
        MachineModel,
        RunEnd,
    )
        decreases u64::MAX - self.stats.instret,
    {
        let (next, end) = self.turned(config, cap, breakpoints);
        match end {
            Some(end) => (next, end),
            None => next.driven(config, cap, breakpoints),
        }
    }

    /// What a run costs.
    pub open spec fn driven_cost(
        self,
        config: ConfigModel,
        cap: u64,
        breakpoints: Set<u32>,
    ) -> nat
        decreases u64::MAX - self.stats.instret,
    {
        let (next, end) = self.turned(config, cap, breakpoints);
        self.turn_cost(config, cap) + (match end {
            Some(end) => 0,
            None => next.driven_cost(config, cap, breakpoints),
        })
    }
}

/// Serves the system call with the number `code`: says whether the program goes on, what the
/// call costs on top, and how many bytes it wrote. Written bytes go to `output`.
pub fn handle_syscall(
    cpu: &mut CpuSnapshot,
    memory: &HecateMemory,
    config: &SimConfig,
    code: u32,
    output: &mut Vec<u8>,
) -> (served: (bool, u64, u64))
    ensures
        served.0 == (code != SYS_EXIT),
        served.1 == old(cpu)@.io_bytes(code).wrapping_mul(config.io_cycles_per_byte),
        served.2 == old(cpu)@.io_bytes(code),
        final(cpu)@ == old(cpu)@.answered(code),
        final(output)@ == (if old(cpu)@.writes_out(code) {
            old(output)@ + memory::bytes_at(
                memory.bytes@,
                old(cpu)@.x[11],
                old(cpu)@.x[12] as nat,
            )
        } else {
            old(output)@
        }),
{
    if code == SYS_WRITE {
        let fd: u32 = cpu.x[10];
        let buf_addr: u32 = cpu.x[11];
        let len: u32 = cpu.x[12];
        if fd == 1 || fd == 2 {
            let mut bytes = memory.read_program_bytes(buf_addr, len);
            output.append(&mut bytes);
            cpu.x[10] = len;
            let io_bytes: u64 = len as u64;
            (true, io_bytes.wrapping_mul(config.io_cycles_per_byte), io_bytes)
        } else {
            cpu.x[10] = 0;
            (true, 0, 0)
        }
    } else {
        (code != SYS_EXIT, 0, 0)
    }
}

impl Machine {
    /// Accounts for and serves the system call that the program makes; says whether the program
    /// goes on.
    fn serve(&mut self, config: &SimConfig) -> (goes_on: bool)
        ensures
            final(self)@ == old(self)@.served(config@),
            goes_on == (old(self)@.call() != SYS_EXIT),
    {
        let code: u32 = self.cpu.x[17];
        let cycles: u64 = config::syscall_cycles_for(
            code,
            config.default_syscall_cycles,
            &config.syscall_cycles,
        );
        self.stats.instret = self.stats.instret.wrapping_add(1);
        self.stats.syscall_count = self.stats.syscall_count.wrapping_add(1);
        self.stats.syscall_cycles = self.stats.syscall_cycles.wrapping_add(cycles);
        self.stats.cycles = self.stats.cycles.wrapping_add(cycles);
        stats::bump(&mut self.stats.syscall_hits, code, 1);
        stats::bump(&mut self.stats.syscall_cycle_totals, code, cycles);

        let (goes_on, extra_cycles, io_bytes) = handle_syscall(
            &mut self.cpu,
            &self.memory,
            config,
            code,
            &mut self.output,
        );
        if extra_cycles != 0 || io_bytes != 0 {
            self.stats.io_cycles = self.stats.io_cycles.wrapping_add(extra_cycles);
            self.stats.io_bytes_written = self.stats.io_bytes_written.wrapping_add(io_bytes);
            self.stats.syscall_cycles = self.stats.syscall_cycles.wrapping_add(extra_cycles);
            self.stats.cycles = self.stats.cycles.wrapping_add(extra_cycles);
            stats::bump(&mut self.stats.syscall_cycle_totals, code, extra_cycles);
        }
        goes_on
    }

    /// Runs the program until its next system call, at the latest when `cap` instructions are
    /// counted, and serves that call; says why the run ends there, if it does. Execution goes on
    /// one instruction behind the call.
    pub fn advance(&mut self, config: &SimConfig, cap: u64, breakpoints: &HashSet<u32>) -> (end:
        Option<RunEnd>)
        requires
            old(self).memory.caches.line_size > 0,
        ensures
            (final(self)@, end) == old(self)@.turned(config@, cap, breakpoints@),
            end is None ==> final(self).stats.instret > old(self).stats.instret,
            cpu::same_caches(old(self).memory.caches@, final(self).memory.caches@),
            old(self).stats.instret >= cap ==> end == Some(
                RunEnd::Stopped(CpuStop::QuotaExceeded),
            ),
            kept_to(old(self)@, final(self)@, cap),
            end == Some(RunEnd::Stopped(CpuStop::QuotaExceeded)) && cap < u64::MAX
                ==> final(self).stats.instret >= cap,
            end == Some(RunEnd::Stopped(CpuStop::QuotaExceeded)) ==> final(self).stats.instret >= cap
                || final(self).stats.instret == 0,
            old(self)@.cannot_fetch(cap) ==> end == Some(RunEnd::Stopped(CpuStop::IllegalFetch))
                && final(self).cpu@ == old(self).cpu@
                && final(self).memory.bytes@ == old(self).memory.bytes@,
            old(self)@.asks_to_end(cap) ==> end == Some(RunEnd::Exited) && final(self).cpu.pc
                == old(self).cpu.pc + 4,
            memory::accesses_add_up(old(self).stats@) ==> memory::accesses_add_up(
                final(self).stats@,
            ),
            adds_up(old(self).stats@) ==> adds_up(final(self).stats@),
            paired(old(self).stats@, config.io_cycles_per_byte) ==> paired(
                final(self).stats@,
                config.io_cycles_per_byte,
            ),
            charged(old(self).stats@, final(self).stats@, old(self)@.turn_cost(config@, cap)),
    {
        let before: u64 = self.stats.instret;
        let ghost start = self@;
        let stop = cpu::run_interp(&mut self.cpu, &mut self.memory, &mut self.stats, cap);
        proof {
            lemma_run_charged(start, cap);
            lemma_call_charged(self@, config@);
            if adds_up(start.stats) {
                law_interpreter_keeps_sums(start.stats, self.stats@);
                law_calls_keep_sums(self@, config@);
            }
            if paired(start.stats, config.io_cycles_per_byte) {
                law_calls_keep_pairs(self@, config@);
            }
            lemma_charged_together(
                start.stats,
                self@.stats,
                self@.served(config@).stats,
                cpu::run_cost(start.memory, start.stats, cpu::run_to(start.cpu, start.memory, start.stats, cap)),
                self@.call_cost(config@),
            );
        }
        if stop != CpuStop::Ecall {
            return Some(RunEnd::Stopped(stop));
        }
        if !self.serve(config) {
            return Some(RunEnd::Exited);
        }
        self.cpu.pc = self.cpu.pc.wrapping_add(4);
        if breakpoints.contains(&self.cpu.pc) {
            return Some(RunEnd::Breakpoint);
        }
        if self.stats.instret <= before {
            return Some(RunEnd::Stopped(CpuStop::QuotaExceeded));
        }
        None
    }

    /// Runs the program until it ends, a system call returns to a breakpoint, or the interpreter
    /// stops, at the latest when `cap` instructions are counted.
    pub fn drive(&mut self, config: &SimConfig, cap: u64, breakpoints: &HashSet<u32>) -> (end:
        RunEnd)
        requires
            old(self).memory.caches.line_size > 0,
        ensures
            (final(self)@, end) == old(self)@.driven(config@, cap, breakpoints@),
            cpu::same_caches(old(self).memory.caches@, final(self).memory.caches@),
            old(self).stats.instret >= cap ==> end == RunEnd::Stopped(CpuStop::QuotaExceeded),
            kept_to(old(self)@, final(self)@, cap),
            end == RunEnd::Stopped(CpuStop::QuotaExceeded) && cap < u64::MAX
                ==> final(self).stats.instret >= cap,
            end == RunEnd::Stopped(CpuStop::QuotaExceeded) ==> final(self).stats.instret >= cap
                || final(self).stats.instret == 0,
            old(self)@.cannot_fetch(cap) ==> end == RunEnd::Stopped(CpuStop::IllegalFetch)
                && final(self).cpu@ == old(self).cpu@
                && final(self).memory.bytes@ == old(self).memory.bytes@,
            old(self)@.asks_to_end(cap) ==> end == RunEnd::Exited
                && final(self).cpu.pc == old(self).cpu.pc + 4,
            memory::accesses_add_up(old(self).stats@) ==> memory::accesses_add_up(
                final(self).stats@,
            ),
            adds_up(old(self).stats@) ==> adds_up(final(self).stats@),
            paired(old(self).stats@, config.io_cycles_per_byte) ==> paired(
                final(self).stats@,
                config.io_cycles_per_byte,
            ),
            charged(
                old(self).stats@,
                final(self).stats@,
                old(self)@.driven_cost(config@, cap, breakpoints@),
            ),
    {
        let ghost mut spent: nat = 0;
        proof {
            lemma_nothing_charged(self.stats@);
        }
        loop
            invariant
                memory::accesses_add_up(old(self).stats@) ==> memory::accesses_add_up(self.stats@),
                adds_up(old(self).stats@) ==> adds_up(self.stats@),
                paired(old(self).stats@, config.io_cycles_per_byte) ==> paired(
                    self.stats@,
                    config.io_cycles_per_byte,
                ),
                charged(old(self).stats@, self.stats@, spent),
                spent + self@.driven_cost(config@, cap, breakpoints@) == old(self)@.driven_cost(
                    config@,
                    cap,
                    breakpoints@,
                ),
                self@ == old(self)@ || !(old(self)@.cannot_fetch(cap) || old(self)@.asks_to_end(
                    cap,
                )),
                kept_to(old(self)@, self@, cap),
                self.memory.caches.line_size > 0,
                cpu::same_caches(old(self).memory.caches@, self.memory.caches@),
                self@.driven(config@, cap, breakpoints@) == old(self)@.driven(
                    config@,
                    cap,
                    breakpoints@,
                ),
            decreases u64::MAX - self.stats.instret,
        {
            let ghost start = self@;
            let end = self.advance(config, cap, breakpoints);
            proof {
                let cost = start.turn_cost(config@, cap);
                lemma_charged_together(old(self).stats@, start.stats, self.stats@, spent, cost);
                lemma_kept_further(old(self)@, start, self@, cap);
                spent = spent + cost;
            }
            if let Some(end) = end {
                return end;
            }
        }
    }
}

/// How many system calls were counted between two states of the counters, less than one turn
/// apart.
pub open spec fn calls_between(before: StatsModel, after: StatsModel) -> int {
    if after.syscall_count >= before.syscall_count {
        after.syscall_count - before.syscall_count
    } else {
        after.syscall_count - before.syscall_count + stats::turn()
    }
}

/// Whether a run kept to the quota `cap`: it counted up to it, and beyond it at most the second
/// count of a system call that the last instruction before the quota made; each system call
/// counts twice. A quota that was reached before lets nothing happen.
pub open spec fn kept_to(before: MachineModel, after: MachineModel, cap: u64) -> bool {
    let calls = calls_between(before.stats, after.stats);
    &&& before.stats.instret >= cap ==> after == before
    &&& before.stats.instret <= cap < u64::MAX ==> {
        &&& before.stats.instret + 2 * calls <= after.stats.instret <= cap + 1
        &&& calls == 0 ==> after.stats.instret <= cap
    }
}

/// Runs one behind the other that keep to a quota keep to it together.
pub proof fn lemma_kept_further(
    before: MachineModel,
    between: MachineModel,
    after: MachineModel,
    cap: u64,
)
    requires
        kept_to(before, between, cap),
        kept_to(between, after, cap),
    ensures
        kept_to(before, after, cap),
{
}

/// Whether no part of the counted cycles exceeds the whole: input and output are part of the
/// system calls, and those are part of all.
pub open spec fn in_order(counters: StatsModel) -> bool {
    counters.io_cycles <= counters.syscall_cycles <= counters.cycles
}

/// Whether `cost` was added to the cycles, up to whole turns of the counter; and, if the cycles
/// did not wrap around, no part of them came to exceed the whole.
#[verifier::opaque]
pub open spec fn charged(before: StatsModel, after: StatsModel, cost: nat) -> bool {
    &&& after.cycles == (before.cycles + cost) % stats::turn()
    &&& in_order(before) && before.cycles + cost <= u64::MAX ==> in_order(after)
}

/// What `charged` says.
pub proof fn law_charged(before: StatsModel, after: StatsModel, cost: nat)
    requires
        charged(before, after, cost),
    ensures
        after.cycles == (before.cycles + cost) % stats::turn(),
        before.cycles + cost <= u64::MAX ==> after.cycles == before.cycles + cost,
        in_order(before) && before.cycles + cost <= u64::MAX ==> in_order(after),
{
    reveal(charged);
}

/// Nothing costs nothing.
pub proof fn lemma_nothing_charged(counters: StatsModel)
    ensures
        charged(counters, counters, 0),
{
    reveal(charged);
}

/// What is charged one behind the other is charged together.
pub proof fn lemma_charged_together(
    before: StatsModel,
    between: StatsModel,
    after: StatsModel,
    first: nat,
    second: nat,
)
    requires
        charged(before, between, first),
        charged(between, after, second),
    ensures
        charged(before, after, first + second),
{
    reveal(charged);
    stats::lemma_adds_up_to_turns(
        before.cycles + first,
        between.cycles as int,
        second as int,
    );
}

/// The interpreter charges what a run costs.
proof fn lemma_run_charged(machine: MachineModel, cap: u64)
    requires
        cpu::run_kept(
            machine.cpu,
            machine.memory,
            machine.stats,
            cap,
            cpu::run_to(machine.cpu, machine.memory, machine.stats, cap),
        ),
    ensures
        charged(
            machine.stats,
            machine.interpreted(cap).stats,
            cpu::run_cost(
                machine.memory,
                machine.stats,
                cpu::run_to(machine.cpu, machine.memory, machine.stats, cap),
            ),
        ),
{
    reveal(charged);
}

/// A system call charges what it costs.
proof fn lemma_call_charged(machine: MachineModel, config: ConfigModel)
    ensures
        charged(machine.stats, machine.served(config).stats, machine.call_cost(config)),
{
    reveal(charged);
    let before = machine.stats;
    let code = machine.call();
    let base = config.cycles_for(code);
    let extra = machine.cpu.io_bytes(code).wrapping_mul(config.io_cycles_per_byte);
    law_call_cost(machine, config);
    stats::lemma_wraps_to_turns(before.cycles, base);
    stats::lemma_wraps_to_turns(before.cycles.wrapping_add(base), extra);
    stats::lemma_adds_up_to_turns(
        before.cycles + base,
        before.cycles.wrapping_add(base) as int,
        extra as int,
    );
}

/// Whether the two tables of system calls are about the same calls, and what input and output
/// cost is what the bytes cost that were written, up to whole turns of the counter.
pub open spec fn paired(counters: StatsModel, cycles_per_byte: u64) -> bool {
    &&& counters.syscall_hits.dom() == counters.syscall_cycle_totals.dom()
    &&& counters.io_cycles == counters.io_bytes_written.wrapping_mul(cycles_per_byte)
}

/// Serving a system call keeps the tables about the same calls, and the cost of input and output
/// that of the bytes written.
pub proof fn law_calls_keep_pairs(machine: MachineModel, config: ConfigModel)
    requires
        paired(machine.stats, config.io_cycles_per_byte),
    ensures
        paired(machine.served(config).stats, config.io_cycles_per_byte),
{
    let before = machine.stats;
    let after = machine.served(config).stats;
    let rate = config.io_cycles_per_byte;
    let bytes = machine.cpu.io_bytes(machine.call());
    law_call_cost(machine, config);
    stats::lemma_product_of_sum(before.io_bytes_written, bytes, rate);
    assert(after.syscall_hits.dom() =~= after.syscall_cycle_totals.dom());
}

/// Where the counters did not wrap around, the cost of input and output is exactly that of the
/// bytes written.
pub proof fn law_io_cost(counters: StatsModel, cycles_per_byte: u64)
    requires
        paired(counters, cycles_per_byte),
        counters.io_bytes_written * cycles_per_byte <= u64::MAX,
    ensures
        counters.io_cycles == counters.io_bytes_written * cycles_per_byte,
{
    stats::lemma_product_wraps(counters.io_bytes_written, cycles_per_byte);
}

/// Fresh counters are paired and in order.
pub proof fn law_fresh_counters_in_order(cycles_per_byte: u64)
    ensures
        paired(StatsModel::zero(), cycles_per_byte),
        in_order(StatsModel::zero()),
{
    stats::lemma_product_wraps(0, cycles_per_byte);
}

/// The sum of the entries of a table.
pub open spec fn total(table: Map<u32, u64>) -> int
    decreases table.dom().len(),
{
    if table.dom().finite() && table.dom().len() > 0 {
        let code = table.dom().choose();
        table[code] + total(table.remove(code))
    } else {
        0
    }
}

/// The sum does not depend on which entry is taken out first.
proof fn lemma_total_without(table: Map<u32, u64>, code: u32)
    requires
        table.dom().finite(),
        table.contains_key(code),
    ensures
        total(table) == table[code] + total(table.remove(code)),
    decreases table.dom().len(),
{
    let first = table.dom().choose();
    if first != code {
        let rest = table.remove(first);
        lemma_total_without(rest, code);
        lemma_total_without(table.remove(code), first);
        assert(rest.remove(code) == table.remove(code).remove(first));
    }
}

/// Adding to one entry of a table adds as much to its sum, up to multiples of two to the power
/// of 64.
proof fn lemma_total_bumped(table: Map<u32, u64>, code: u32, amount: u64)
    requires
        table.dom().finite(),
    ensures
        total(stats::bumped(table, code, amount)) % 0x1_0000_0000_0000_0000 == (total(table)
            + amount) % 0x1_0000_0000_0000_0000,
        stats::bumped(table, code, amount).dom().finite(),
{
    let after = stats::bumped(table, code, amount);
    lemma_total_without(after, code);
    if table.contains_key(code) {
        lemma_total_without(table, code);
        assert(after.remove(code) == table.remove(code));
    } else {
        assert(after.remove(code) == table);
    }
}

/// Whether the tables of system calls add up to the counters: as many hits as calls, and as
/// many cycles, up to multiples of two to the power of 64.
pub open spec fn adds_up(counters: StatsModel) -> bool {
    &&& counters.syscall_hits.dom().finite()
    &&& counters.syscall_cycle_totals.dom().finite()
    &&& total(counters.syscall_hits) % 0x1_0000_0000_0000_0000 == counters.syscall_count
    &&& total(counters.syscall_cycle_totals) % 0x1_0000_0000_0000_0000 == counters.syscall_cycles
}

/// Fresh counters add up.
pub proof fn law_fresh_counters_add_up()
    ensures
        adds_up(StatsModel::zero()),
{
}

/// The interpreter keeps counters that add up so.
pub proof fn law_interpreter_keeps_sums(before: StatsModel, after: StatsModel)
    requires
        adds_up(before),
        cpu::only_run_counters_moved(before, after),
    ensures
        adds_up(after),
{
}

/// Serving a system call keeps counters that add up so.
pub proof fn law_calls_keep_sums(machine: MachineModel, config: ConfigModel)
    requires
        adds_up(machine.stats),
    ensures
        adds_up(machine.served(config).stats),
{
    let before = machine.stats;
    let code = machine.call();
    let base = config.cycles_for(code);
    let bytes = machine.cpu.io_bytes(code);
    let extra = bytes.wrapping_mul(config.io_cycles_per_byte);
    let counted = call_counted(before, code, base);
    lemma_total_bumped(before.syscall_hits, code, 1);
    lemma_total_bumped(before.syscall_cycle_totals, code, base);
    assert(adds_up(counted));
    lemma_total_bumped(counted.syscall_cycle_totals, code, extra);
}

/// What a system call adds to the score is what it adds to the cycles of system calls, and to
/// the entry of its number; what input and output add is part of that.
pub proof fn law_call_cost(machine: MachineModel, config: ConfigModel)
    ensures
        ({
            let before = machine.stats;
            let after = machine.served(config).stats;
            let code = machine.call();
            let base = config.cycles_for(code);
            let extra = machine.cpu.io_bytes(code).wrapping_mul(config.io_cycles_per_byte);
            &&& after.cycles == before.cycles.wrapping_add(base).wrapping_add(extra)
            &&& after.syscall_cycles == before.syscall_cycles.wrapping_add(base).wrapping_add(extra)
            &&& after.io_cycles == before.io_cycles.wrapping_add(extra)
            &&& after.io_bytes_written == before.io_bytes_written.wrapping_add(
                machine.cpu.io_bytes(code),
            )
            &&& after.syscall_count == before.syscall_count.wrapping_add(1)
            &&& after.instret == before.instret.wrapping_add(1)
            &&& after.cache_hits == before.cache_hits
            &&& after.memory_access_count == before.memory_access_count
        }),
{
}

/// System calls change no memory, and no register but the one that holds the answer.
pub proof fn law_calls_leave_memory(machine: MachineModel, config: ConfigModel, i: int)
    requires
        machine.cpu.x.len() == 32,
        0 <= i < 32,
        i != 10,
    ensures
        machine.served(config).memory == machine.memory,
        machine.served(config).cpu.x[i] == machine.cpu.x[i],
        machine.served(config).cpu.pc == machine.cpu.pc,
        machine.served(config).cpu.f == machine.cpu.f,
{
}

/// A write to one of the two output streams puts the bytes that its arguments name out behind what
/// was written before, and answers how many they are. They count, and cost what a byte costs each
/// on top of what the call costs.
pub proof fn law_writes_out(machine: MachineModel, config: ConfigModel)
    requires
        machine.cpu.x.len() == 32,
        machine.cpu.x[17] == 64,
        machine.cpu.x[10] == 1 || machine.cpu.x[10] == 2,
        machine.stats.cycles + config.cycles_for(64) + machine.cpu.x[12]
            * config.io_cycles_per_byte <= u64::MAX,
        machine.stats.io_cycles + machine.cpu.x[12] * config.io_cycles_per_byte <= u64::MAX,
        machine.stats.io_bytes_written + machine.cpu.x[12] <= u64::MAX,
    ensures
        ({
            let after = machine.served(config);
            let len = machine.cpu.x[12];
            &&& after.output == machine.output + memory::bytes_at(
                machine.memory.bytes,
                machine.cpu.x[11],
                len as nat,
            )
            &&& after.cpu.x[10] == len
            &&& after.stats.io_bytes_written == machine.stats.io_bytes_written + len
            &&& after.stats.io_cycles == machine.stats.io_cycles + len * config.io_cycles_per_byte
            &&& after.stats.cycles == machine.stats.cycles + config.cycles_for(64) + len
                * config.io_cycles_per_byte
        }),
{
    let len = machine.cpu.x[12] as u64;
    assert(len * config.io_cycles_per_byte >= 0) by (nonlinear_arith)
        requires
            len >= 0,
            config.io_cycles_per_byte >= 0,
    ;
    stats::lemma_product_wraps(len, config.io_cycles_per_byte);
}

/// A write to any other stream puts nothing out, and answers that; any other call puts nothing out
/// and leaves the registers as they are. Neither counts bytes, nor costs more than the call does.
pub proof fn law_other_calls(machine: MachineModel, config: ConfigModel)
    requires
        machine.cpu.x.len() == 32,
        machine.cpu.x[17] == 64 ==> machine.cpu.x[10] != 1 && machine.cpu.x[10] != 2,
        machine.stats.cycles + config.cycles_for(machine.cpu.x[17]) <= u64::MAX,
    ensures
        ({
            let after = machine.served(config);
            &&& after.output == machine.output
            &&& machine.cpu.x[17] == 64 ==> after.cpu.x[10] == 0
            &&& machine.cpu.x[17] != 64 ==> after.cpu == machine.cpu
            &&& after.stats.io_bytes_written == machine.stats.io_bytes_written
            &&& after.stats.io_cycles == machine.stats.io_cycles
            &&& after.stats.cycles == machine.stats.cycles + config.cycles_for(machine.cpu.x[17])
        }),
{
}

/// A call is counted under its number, with what it costs, and under no other number.
pub proof fn law_calls_are_counted_apart(
    machine: MachineModel,
    config: ConfigModel,
    other: u32,
)
    requires
        machine.cpu.x.len() == 32,
        other != machine.cpu.x[17],
        machine.stats.syscall_count < u64::MAX,
        machine.stats.instret < u64::MAX,
    ensures
        ({
            let before = machine.stats;
            let after = machine.served(config).stats;
            let code = machine.cpu.x[17];
            let base = config.cycles_for(code);
            let paid: u64 = if code == 64 && (machine.cpu.x[10] == 1 || machine.cpu.x[10] == 2) {
                base.wrapping_add(
                    (machine.cpu.x[12] as u64).wrapping_mul(config.io_cycles_per_byte),
                )
            } else {
                base
            };
            &&& after.syscall_count == before.syscall_count + 1
            &&& after.instret == before.instret + 1
            &&& after.syscall_hits.contains_key(code)
            &&& after.syscall_hits[code] == (if before.syscall_hits.contains_key(code) {
                before.syscall_hits[code].wrapping_add(1)
            } else {
                1
            })
            &&& after.syscall_cycle_totals.contains_key(code)
            &&& after.syscall_cycle_totals[code] == (if before.syscall_cycle_totals.contains_key(
                code,
            ) {
                before.syscall_cycle_totals[code].wrapping_add(paid)
            } else {
                paid
            })
            &&& after.syscall_hits.contains_key(other) == before.syscall_hits.contains_key(other)
            &&& before.syscall_hits.contains_key(other) ==> after.syscall_hits[other]
                == before.syscall_hits[other]
            &&& after.syscall_cycle_totals.contains_key(other)
                == before.syscall_cycle_totals.contains_key(other)
            &&& before.syscall_cycle_totals.contains_key(other)
                ==> after.syscall_cycle_totals[other] == before.syscall_cycle_totals[other]
        }),
{
}

/// A run goes up to a system call, which is served. If the call asks to end the program, the run
/// ends there, with execution where the call left it; otherwise execution goes on one instruction
/// further, and the run ends there if that is a breakpoint, or if the instructions that were
/// counted are no more than before. A run that stops for any other reason ends for that one.
pub proof fn law_turns(
    machine: MachineModel,
    config: ConfigModel,
    cap: u64,
    breakpoints: Set<u32>,
)
    ensures
        ({
            let outcome = cpu::run_to(machine.cpu, machine.memory, machine.stats, cap);
            let ran = MachineModel {
                cpu: outcome.cpu,
                memory: outcome.memory,
                stats: outcome.stats,
                output: machine.output,
            };
            let served = ran.served(config);
            let (next, end) = machine.turned(config, cap, breakpoints);
            let further = (served.cpu.pc + 4) % 0x1_0000_0000;
            &&& outcome.stop != CpuStop::Ecall ==> next == ran && end == Some(
                RunEnd::Stopped(outcome.stop),
            )
            &&& outcome.stop == CpuStop::Ecall && ran.cpu.x[17] == 93 ==> next == served && end
                == Some(RunEnd::Exited)
            &&& outcome.stop == CpuStop::Ecall && ran.cpu.x[17] != 93 ==> {
                &&& next.cpu == (CpuModel { pc: further as u32, ..served.cpu })
                &&& next.memory == served.memory && next.stats == served.stats && next.output
                    == served.output
                &&& breakpoints.contains(further as u32) ==> end == Some(RunEnd::Breakpoint)
                &&& !breakpoints.contains(further as u32) && next.stats.instret
                    > machine.stats.instret ==> end is None
                &&& !breakpoints.contains(further as u32) && next.stats.instret
                    <= machine.stats.instret ==> end == Some(
                    RunEnd::Stopped(CpuStop::QuotaExceeded),
                )
            }
        }),
{
}

/// A run ends with the first of its parts that gives it a reason to end, for that reason; the
/// parts start where the one before left off.
pub proof fn law_runs_end(
    machine: MachineModel,
    config: ConfigModel,
    cap: u64,
    breakpoints: Set<u32>,
)
    ensures
        ({
            let (next, end) = machine.turned(config, cap, breakpoints);
            &&& end matches Some(reason) ==> machine.driven(config, cap, breakpoints) == (
                next,
                reason,
            )
            &&& end is None ==> machine.driven(config, cap, breakpoints) == next.driven(
                config,
                cap,
                breakpoints,
            )
        }),
{
    let (next, end) = machine.turned(config, cap, breakpoints);
    assert(end is None ==> next.stats.instret > machine.stats.instret);
}

} // verus!
