//! A run of a program from start to end, and the report on it.

use crate::config::{self, ConfigModel, SimConfig, VmRuntimeOptions};
use crate::cpu::{CpuModel, CpuSnapshot, CpuStop};
use crate::debug_ui;
use crate::elf::{self, ElfError, ElfVerdict};
use crate::machine::{Machine, MachineModel, RunEnd};
use crate::memory::{HecateMemory, MemoryModel};
use crate::stats::{RunStats, StatsModel};
use crate::text;
use crate::vm::VmError;
use std::collections::{HashMap, HashSet};
use vstd::prelude::*;

verus! {

broadcast use vstd::std_specs::hash::group_hash_axioms;

/// The views of lines.
pub open spec fn views(lines: Seq<String>) -> Seq<Seq<char>> {
    lines.map_values(|line: String| line@)
}

/// A label, and a number in decimal behind it.
pub open spec fn labelled(label: Seq<char>, n: u64) -> Seq<char> {
    label + text::dec(n as nat)
}

fn label_number(label: &str, n: u64) -> (line: String)
    ensures
        line@ == labelled(label@, n),
{
    label.to_owned().concat(text::to_dec(n).as_str())
}

/// The lines about the end of a run.
pub open spec fn stop_lines(stop: CpuStop, cpu: CpuModel) -> Seq<Seq<char>> {
    let front = seq![
        ""@,
        "========== RESULT/STATS =========="@,
        ""@,
        "Stop reason: "@ + stop.text(),
    ];
    let call = if stop == CpuStop::Ecall {
        front.push(
            "ECALL a7(code)="@ + text::dec(cpu.x[17] as nat) + " a0(value)="@ + text::dec(
                cpu.x[10] as nat,
            ),
        )
    } else {
        front
    };
    call.push("PC: "@ + debug_ui::hex8(cpu.pc))
}

/// The lines about the counters.
pub open spec fn counter_lines(stats: StatsModel) -> Seq<Seq<char>> {
    seq![
        labelled("Score (cycles): "@, stats.cycles),
        labelled("Instructions retired: "@, stats.instret),
        labelled("Memory accesses: "@, stats.memory_access_count),
        labelled("Instruction fetches: "@, stats.instruction_fetches),
        labelled("Data loads: "@, stats.data_loads),
        labelled("Data stores: "@, stats.data_stores),
        labelled("Syscalls: "@, stats.syscall_count),
        labelled("Syscall cycles contribution: "@, stats.syscall_cycles),
        labelled("I/O cycles contribution: "@, stats.io_cycles),
        labelled("IO Bytes Written: "@, stats.io_bytes_written),
        labelled("Cache hits L1I: "@, stats.cache_hits.l1i),
        labelled("Cache hits L1D: "@, stats.cache_hits.l1d),
        labelled("Cache hits L2: "@, stats.cache_hits.l2),
        labelled("Cache hits L3: "@, stats.cache_hits.l3),
    ]
}

/// What a kind of system call cost beyond its base price: its total, less the base price of
/// each of its calls.
pub open spec fn variable_cycles(total: u64, base: u64, count: u64) -> u64 {
    if base * count >= total {
        0
    } else {
        (total - base * count) as u64
    }
}

/// The line about the system calls with the number `code`.
pub open spec fn call_line(code: u32, stats: StatsModel, config: ConfigModel) -> Seq<char> {
    let count = stats.syscall_hits[code];
    let base = config.cycles_for(code);
    let subtotal = if stats.syscall_cycle_totals.contains_key(code) {
        stats.syscall_cycle_totals[code]
    } else {
        0
    };
    "  syscall "@ + text::dec(code as nat) + ": count="@ + text::dec(count as nat)
        + " base_cycles_each="@ + text::dec(base as nat) + " variable_cycles="@ + text::dec(
        variable_cycles(subtotal, base, count) as nat,
    ) + " subtotal="@ + text::dec(subtotal as nat)
}

/// Whether `codes` are the numbers of the system calls that were made, from low to high.
pub open spec fn is_breakdown(codes: Seq<u32>, hits: Map<u32, u64>) -> bool {
    &&& forall|i: int, j: int| 0 <= i < j < codes.len() ==> codes[i] < codes[j]
    &&& forall|code: u32| codes.contains(code) <==> #[trigger] hits.contains_key(code)
}

/// The lines about system calls.
pub open spec fn call_lines(codes: Seq<u32>, stats: StatsModel, config: ConfigModel) -> Seq<
    Seq<char>,
> {
    if codes.len() == 0 {
        Seq::empty()
    } else {
        seq![""@, "Syscall breakdown:"@] + codes.map_values(
            |code: u32| call_line(code, stats, config),
        )
    }
}

/// The number in two's complement that the 32 bits of `n` stand for.
pub open spec fn as_signed(n: u32) -> int {
    if n >= 0x8000_0000 {
        n - 0x1_0000_0000
    } else {
        n as int
    }
}

/// The line about register number `i`.
pub open spec fn register_line(i: int, value: u32) -> Seq<char> {
    "x"@ + text::zero_padded(text::dec(i as nat), 2) + ": "@ + debug_ui::hex8(value) + " ("@
        + text::signed(as_signed(value)) + ")"@
}

/// The lines about the first `count` registers.
pub open spec fn register_lines(x: Seq<u32>, count: nat) -> Seq<Seq<char>> {
    seq![""@, "Registers:"@] + Seq::new(count, |i: int| register_line(i, x[i]))
}

/// The report on a run, with the numbers of the system calls from low to high.
pub open spec fn report(
    stop: CpuStop,
    cpu: CpuModel,
    stats: StatsModel,
    dump_registers: bool,
    config: ConfigModel,
    codes: Seq<u32>,
) -> Seq<Seq<char>> {
    let lines = stop_lines(stop, cpu) + counter_lines(stats) + call_lines(codes, stats, config);
    if dump_registers {
        lines + register_lines(cpu.x, 32)
    } else {
        lines
    }
}

/// Whether `lines` are the report on a run.
pub open spec fn reports(
    lines: Seq<Seq<char>>,
    stop: CpuStop,
    cpu: CpuModel,
    stats: StatsModel,
    dump_registers: bool,
    config: ConfigModel,
) -> bool {
    exists|codes: Seq<u32>| #[trigger]
        is_breakdown(codes, stats.syscall_hits) && lines == report(
            stop,
            cpu,
            stats,
            dump_registers,
            config,
            codes,
        )
}

/// Puts a number among others that go from low to high.
fn place(codes: &mut Vec<u32>, code: u32)
    requires
        !old(codes)@.contains(code),
        forall|i: int, j: int|
            0 <= i < j < old(codes)@.len() ==> old(codes)@[i] < old(codes)@[j],
    ensures
        forall|i: int, j: int|
            0 <= i < j < final(codes)@.len() ==> final(codes)@[i] < final(codes)@[j],
        final(codes)@.to_set() == old(codes)@.to_set().insert(code),
{
    let mut at: usize = 0;
    while at < codes.len() && codes[at] < code
        invariant
            at <= codes@.len(),
            codes@ == old(codes)@,
            forall|i: int| 0 <= i < at ==> codes@[i] < code,
        decreases codes@.len() - at,
    {
        at = at + 1;
    }
    let ghost before = codes@;
    proof {
        if at < before.len() {
            assert(before.contains(before[at as int]));
        }
    }
    codes.insert(at, code);
    proof {
        let after = codes@;
        assert forall|c: u32| after.to_set().contains(c) <==> before.to_set().insert(
            code,
        ).contains(c) by {
            if after.contains(c) {
                let i = after.index_of(c);
                assert(after[i] == c);
                if i < at {
                    assert(before[i] == c);
                } else if i > at {
                    assert(before[i - 1] == c);
                }
            }
            if before.contains(c) {
                let i = before.index_of(c);
                assert(before[i] == c);
                if i < at {
                    assert(after[i] == c);
                } else {
                    assert(after[i + 1] == c);
                }
            }
            assert(after[at as int] == code);
        }
        assert(after.to_set() == before.to_set().insert(code));
    }
}

/// The numbers of the system calls that were made, from low to high.
pub fn breakdown(hits: &HashMap<u32, u64>) -> (codes: Vec<u32>)
    ensures
        is_breakdown(codes@, hits@),
{
    let mut codes: Vec<u32> = Vec::new();
    assert(codes@.to_set() == Set::<u32>::empty());
    for code in it: hits.keys()
        invariant
            it.seq().unref().to_set() == hits@.dom(),
            it.seq().unref().no_duplicates(),
            it.seq().unref().take(it.seq().len() as int) == it.seq().unref(),
            codes@.to_set() == it.seq().unref().take(it.index() as int).to_set(),
            forall|i: int, j: int| 0 <= i < j < codes@.len() ==> codes@[i] < codes@[j],
    {
        proof {
            let all = it.seq().unref();
            let n = it.index() as int;
            crate::cache::lemma_set_of_prefix(all, n);
            if codes@.contains(*code) {
                assert(codes@.to_set().contains(*code));
                assert(all.take(n).contains(*code));
                let i = all.take(n).index_of(*code);
                assert(all.take(n)[i] == *code);
                assert(all[i] == all[n]);
            }
        }
        place(&mut codes, *code);
    }
    assert(codes@.to_set() == hits@.dom());
    assert forall|code: u32| codes@.contains(code) <==> #[trigger] hits@.contains_key(code) by {
        assert(codes@.to_set().contains(code) <==> codes@.contains(code));
    }
    codes
}

fn stop_report(stop: CpuStop, cpu: &CpuSnapshot) -> (lines: Vec<String>)
    ensures
        views(lines@) == stop_lines(stop, cpu@),
{
    let mut lines: Vec<String> = vec![
        "".to_owned(),
        "========== RESULT/STATS ==========".to_owned(),
        "".to_owned(),
        "Stop reason: ".to_owned().concat(stop.name().as_str()),
    ];
    if stop == CpuStop::Ecall {
        lines.push(
            "ECALL a7(code)=".to_owned().concat(text::to_dec(cpu.x[17] as u64).as_str()).concat(
                " a0(value)=",
            ).concat(text::to_dec(cpu.x[10] as u64).as_str()),
        );
    }
    lines.push("PC: ".to_owned().concat(debug_ui::to_hex8(cpu.pc).as_str()));
    assert(views(lines@) =~= stop_lines(stop, cpu@));
    lines
}

fn counter_report(stats: &RunStats) -> (lines: Vec<String>)
    ensures
        views(lines@) == counter_lines(stats@),
{
    let lines: Vec<String> = vec![
        label_number("Score (cycles): ", stats.cycles),
        label_number("Instructions retired: ", stats.instret),
        label_number("Memory accesses: ", stats.memory_access_count),
        label_number("Instruction fetches: ", stats.instruction_fetches),
        label_number("Data loads: ", stats.data_loads),
        label_number("Data stores: ", stats.data_stores),
        label_number("Syscalls: ", stats.syscall_count),
        label_number("Syscall cycles contribution: ", stats.syscall_cycles),
        label_number("I/O cycles contribution: ", stats.io_cycles),
        label_number("IO Bytes Written: ", stats.io_bytes_written),
        label_number("Cache hits L1I: ", stats.cache_hits.l1i),
        label_number("Cache hits L1D: ", stats.cache_hits.l1d),
        label_number("Cache hits L2: ", stats.cache_hits.l2),
        label_number("Cache hits L3: ", stats.cache_hits.l3),
    ];
    assert(views(lines@) =~= counter_lines(stats@));
    lines
}

fn call_report(code: u32, stats: &RunStats, config: &SimConfig) -> (line: String)
    requires
        stats@.syscall_hits.contains_key(code),
    ensures
        line@ == call_line(code, stats@, config@),
{
    let count: u64 = match stats.syscall_hits.get(&code) {
        Some(count) => *count,
        None => 0,
    };
    let base: u64 = config::syscall_cycles_for(
        code,
        config.default_syscall_cycles,
        &config.syscall_cycles,
    );
    let subtotal: u64 = match stats.syscall_cycle_totals.get(&code) {
        Some(total) => *total,
        None => 0,
    };
    let variable: u64 = match base.checked_mul(count) {
        Some(fixed) => subtotal.saturating_sub(fixed),
        None => 0,
    };
    "  syscall ".to_owned().concat(text::to_dec(code as u64).as_str()).concat(": count=").concat(
        text::to_dec(count).as_str(),
    ).concat(" base_cycles_each=").concat(text::to_dec(base).as_str()).concat(
        " variable_cycles=",
    ).concat(text::to_dec(variable).as_str()).concat(" subtotal=").concat(
        text::to_dec(subtotal).as_str(),
    )
}

fn calls_report(codes: &Vec<u32>, stats: &RunStats, config: &SimConfig) -> (lines: Vec<String>)
    requires
        is_breakdown(codes@, stats@.syscall_hits),
    ensures
        views(lines@) == call_lines(codes@, stats@, config@),
{
    let mut lines: Vec<String> = Vec::new();
    if codes.len() == 0 {
        assert(views(lines@) =~= call_lines(codes@, stats@, config@));
        return lines;
    }
    lines.push("".to_owned());
    lines.push("Syscall breakdown:".to_owned());
    let mut next: usize = 0;
    while next < codes.len()
        invariant
            next <= codes@.len(),
            is_breakdown(codes@, stats@.syscall_hits),
            lines@.len() == next + 2,
            lines@[0]@ == ""@,
            lines@[1]@ == "Syscall breakdown:"@,
            forall|i: int|
                2 <= i < lines@.len() ==> (#[trigger] lines@[i])@ == call_line(
                    codes@[i - 2],
                    stats@,
                    config@,
                ),
        decreases codes@.len() - next,
    {
        assert(codes@.contains(codes@[next as int]));
        assert(stats@.syscall_hits.contains_key(codes@[next as int]));
        lines.push(call_report(codes[next], stats, config));
        next = next + 1;
    }
    assert(views(lines@) =~= call_lines(codes@, stats@, config@));
    lines
}

fn to_signed32(n: u32) -> (value: i32)
    ensures
        value == as_signed(n),
{
    if n >= 0x8000_0000 {
        (n as i64 - 0x1_0000_0000) as i32
    } else {
        n as i32
    }
}

/// A number below 100 has at most two digits.
proof fn lemma_two_digits(n: nat)
    requires
        n < 100,
    ensures
        n < 10 ==> text::dec(n).len() == 1,
        10 <= n ==> text::dec(n).len() == 2,
{
    if n >= 10 {
        assert(n / 10 < 10);
        assert(text::digits(n, 10) == text::digits(n / 10, 10).push(text::digit((n % 10) as int)));
    }
}

fn register_report(index: usize, value: u32) -> (line: String)
    requires
        index < 100,
    ensures
        line@ == register_line(index as int, value),
{
    proof {
        lemma_two_digits(index as nat);
        reveal_strlit("0");
    }
    let digits = text::to_dec(index as u64);
    let name = if index < 10 {
        "x".to_owned().concat("0".to_owned().concat(digits.as_str()).as_str())
    } else {
        "x".to_owned().concat(digits.as_str())
    };
    assert(name@ =~= "x"@ + text::zero_padded(text::dec(index as nat), 2));
    name.concat(": ").concat(debug_ui::to_hex8(value).as_str()).concat(" (").concat(
        text::to_signed(to_signed32(value)).as_str(),
    ).concat(")")
}

fn registers_report(cpu: &CpuSnapshot) -> (lines: Vec<String>)
    ensures
        views(lines@) == register_lines(cpu@.x, 32),
{
    let mut lines: Vec<String> = vec!["".to_owned(), "Registers:".to_owned()];
    let mut next: usize = 0;
    assert(views(lines@) =~= register_lines(cpu@.x, 0));
    while next < 32
        invariant
            next <= 32,
            views(lines@) == register_lines(cpu@.x, next as nat),
        decreases 32 - next,
    {
        let ghost before = lines@;
        let line = register_report(next, cpu.x[next]);
        assert(views(before.push(line)) =~= views(before).push(line@));
        assert(register_lines(cpu@.x, next as nat).push(line@) =~= register_lines(
            cpu@.x,
            (next + 1) as nat,
        ));
        lines.push(line);
        next = next + 1;
    }
    lines
}

/// Puts `more` lines behind others.
fn extend(lines: &mut Vec<String>, more: Vec<String>)
    ensures
        views(final(lines)@) == views(old(lines)@) + views(more@),
{
    let mut more = more;
    let ghost before = lines@;
    let ghost added = more@;
    lines.append(&mut more);
    assert(views(before + added) =~= views(before) + views(added));
}

/// The report on a run.
pub fn report_result(
    stop: CpuStop,
    cpu: &CpuSnapshot,
    stats: &RunStats,
    dump_registers: bool,
    config: &SimConfig,
) -> (lines: Vec<String>)
    ensures
        reports(views(lines@), stop, cpu@, stats@, dump_registers, config@),
{
    let codes = breakdown(&stats.syscall_hits);
    let mut lines = stop_report(stop, cpu);
    extend(&mut lines, counter_report(stats));
    extend(&mut lines, calls_report(&codes, stats, config));
    if dump_registers {
        extend(&mut lines, registers_report(cpu));
    }
    assert(is_breakdown(codes@, stats@.syscall_hits));
    lines
}

/// There is only one way to list the system calls from low to high, so there is only one report
/// on a run.
pub proof fn law_one_breakdown(a: Seq<u32>, b: Seq<u32>, hits: Map<u32, u64>)
    requires
        is_breakdown(a, hits),
        is_breakdown(b, hits),
    ensures
        a == b,
    decreases a.len() + b.len(),
{
    if a.len() == 0 {
        if b.len() > 0 {
            assert(b.contains(b[0]));
            assert(hits.contains_key(b[0]));
        }
    } else {
        let x = a.last();
        assert(a.contains(x));
        assert(hits.contains_key(x));
        assert(b.contains(x));
        let y = b.last();
        assert(b.contains(y));
        assert(hits.contains_key(y));
        assert(a.contains(y));
        let i = a.index_of(y);
        let j = b.index_of(x);
        assert(a[i] == y && b[j] == x);
        assert(x == y) by {
            if i < a.len() - 1 {
                assert(a[i] < a[a.len() - 1]);
            }
            if j < b.len() - 1 {
                assert(b[j] < b[b.len() - 1]);
            }
        }
        let rest = hits.remove(x);
        let a0 = a.drop_last();
        let b0 = b.drop_last();
        assert forall|code: u32| a0.contains(code) <==> #[trigger] rest.contains_key(code) by {
            lemma_without_last(a, code);
        }
        assert forall|code: u32| b0.contains(code) <==> #[trigger] rest.contains_key(code) by {
            lemma_without_last(b, code);
        }
        law_one_breakdown(a0, b0, rest);
        assert(a == a0.push(x));
        assert(b == b0.push(y));
    }
}

/// What stands in a list from low to high without its last number.
proof fn lemma_without_last(codes: Seq<u32>, code: u32)
    requires
        codes.len() > 0,
        forall|i: int, j: int| 0 <= i < j < codes.len() ==> codes[i] < codes[j],
    ensures
        codes.drop_last().contains(code) <==> codes.contains(code) && code != codes.last(),
{
    if codes.drop_last().contains(code) {
        let i = codes.drop_last().index_of(code);
        assert(codes[i] == code);
        assert(codes[i] < codes[codes.len() - 1]);
    }
    if codes.contains(code) && code != codes.last() {
        let i = codes.index_of(code);
        assert(codes.drop_last()[i] == code);
    }
}

/// A machine with the program `blob` in it, ready to start.
pub open spec fn prepared(
    blob: Seq<u8>,
    options: VmRuntimeOptions,
    config: ConfigModel,
) -> MachineModel {
    MachineModel {
        cpu: CpuModel::start(elf::entry(blob)),
        memory: elf::loaded(
            MemoryModel::fresh(options, config),
            blob,
            elf::segment_count(blob),
        ),
        stats: StatsModel::zero(),
        output: Seq::empty(),
    }
}

/// How many instructions a run may count.
pub open spec fn quota(options: VmRuntimeOptions) -> u64 {
    match options.max_instructions {
        Some(cap) => cap,
        None => u64::MAX,
    }
}

/// A machine after the program in it ran to its end, or to the quota, and why it stopped: the
/// end of a program is a system call.
pub open spec fn finished(
    machine: MachineModel,
    options: VmRuntimeOptions,
    config: ConfigModel,
) -> (MachineModel, CpuStop) {
    let (after, end) = machine.driven(config, quota(options), Set::empty());
    (
        after,
        match end {
            RunEnd::Stopped(stop) => stop,
            _ => CpuStop::Ecall,
        },
    )
}

/// What a run wrote out, and the report on it.
#[derive(Debug)]
pub struct RunReport {
    pub output: Vec<u8>,
    pub lines: Vec<String>,
}

/// Makes a machine with the program `blob` in it.
pub fn prepare(blob: &[u8], options: VmRuntimeOptions, config: &SimConfig) -> (result: Result<
    Machine,
    ElfError,
>)
    requires
        options.cache_line_size > 0,
    ensures
        match result {
            Ok(machine) => {
                &&& elf::verdict(blob@) == ElfVerdict::Accepted
                &&& machine@ == prepared(blob@, options, config@)
                &&& machine.memory.caches.line_size > 0
            },
            Err(ElfError::Refused(complaint)) => elf::verdict(blob@) == ElfVerdict::Refused
                && complaint@ == elf::elf_complaint(blob@),
            Err(ElfError::Unaddressable) => elf::verdict(blob@) == ElfVerdict::Unaddressable,
        },
{
    let mut memory = HecateMemory::new(options, config);
    proof {
        crate::laws::lemma_loading_keeps_caches(memory@, blob@, elf::segment_count(blob@));
    }
    match elf::load_elf_bytes(blob, &mut memory) {
        Ok(entry) => {
            assert(memory.caches@.line_size > 0);
            Ok(
                Machine {
                    cpu: CpuSnapshot::new(entry),
                    memory,
                    stats: RunStats::default(),
                    output: Vec::new(),
                },
            )
        },
        Err(error) => Err(error),
    }
}

/// Runs the program in a machine to its next system call, its end or the quota, and serves that
/// call; says why it stopped, if it did. What it wrote out by then is in the machine's output.
pub fn run_on(machine: &mut Machine, options: VmRuntimeOptions, config: &SimConfig) -> (stop:
    Option<CpuStop>)
    requires
        old(machine).memory.caches.line_size > 0,
    ensures
        final(machine).memory.caches.line_size > 0,
        match stop {
            Some(stop) => (final(machine)@, stop) == finished(old(machine)@, options, config@),
            None => {
                &&& finished(final(machine)@, options, config@) == finished(
                    old(machine)@,
                    options,
                    config@,
                )
                &&& final(machine).stats.instret > old(machine).stats.instret
            },
        },
        (final(machine)@, stop is Some) == ({
            let (next, end) = old(machine)@.turned(config@, quota(options), Set::empty());
            (next, end is Some)
        }),
{
    let cap: u64 = match options.max_instructions {
        Some(cap) => cap,
        None => u64::MAX,
    };
    let no_breakpoints: HashSet<u32> = HashSet::new();
    match machine.advance(config, cap, &no_breakpoints) {
        Some(RunEnd::Stopped(stop)) => Some(stop),
        Some(_) => Some(CpuStop::Ecall),
        None => None,
    }
}

/// Runs the program in a machine to its end, or to the quota; says why it stopped.
pub fn finish(machine: &mut Machine, options: VmRuntimeOptions, config: &SimConfig) -> (stop:
    CpuStop)
    requires
        old(machine).memory.caches.line_size > 0,
    ensures
        (final(machine)@, stop) == finished(old(machine)@, options, config@),
{
    loop
        invariant
            machine.memory.caches.line_size > 0,
            finished(machine@, options, config@) == finished(old(machine)@, options, config@),
        decreases u64::MAX - machine.stats.instret,
    {
        if let Some(stop) = run_on(machine, options, config) {
            return stop;
        }
    }
}

/// Runs the program `blob` from start to end.
pub fn run_elf(
    label: String,
    blob: &[u8],
    options: VmRuntimeOptions,
    dump_registers: bool,
    config: &SimConfig,
) -> (result: Result<RunReport, VmError>)
    requires
        options.cache_line_size > 0,
    ensures
        match result {
            Ok(run) => {
                let (after, stop) = finished(prepared(blob@, options, config@), options, config@);
                &&& elf::verdict(blob@) == ElfVerdict::Accepted
                &&& run.output@ == after.output
                &&& reports(
                    views(run.lines@),
                    stop,
                    after.cpu,
                    after.stats,
                    dump_registers,
                    config@,
                )
            },
            Err(VmError::Elf { label: name, error: ElfError::Refused(complaint) }) => {
                &&& elf::verdict(blob@) == ElfVerdict::Refused
                &&& name@ == label@
                &&& complaint@ == elf::elf_complaint(blob@)
            },
            Err(VmError::Elf { label: name, error: ElfError::Unaddressable }) => {
                &&& elf::verdict(blob@) == ElfVerdict::Unaddressable
                &&& name@ == label@
            },
            Err(VmError::Halted) => false,
        },
{
    match prepare(blob, options, config) {
        Ok(machine) => {
            let mut machine = machine;
            let stop = finish(&mut machine, options, config);
            let lines = report_result(stop, &machine.cpu, &machine.stats, dump_registers, config);
            Ok(RunReport { output: machine.output, lines })
        },
        Err(error) => Err(VmError::Elf { label, error }),
    }
}

/// A report opens with its title, the reason why the run stopped and, for a system call, the
/// number and the argument of the call; then comes where it stopped.
pub proof fn law_report_opens(
    lines: Seq<Seq<char>>,
    stop: CpuStop,
    cpu: CpuModel,
    stats: StatsModel,
    dump_registers: bool,
    config: ConfigModel,
)
    requires
        reports(lines, stop, cpu, stats, dump_registers, config),
    ensures
        lines.len() >= 19,
        lines[0] == ""@,
        lines[1] == "========== RESULT/STATS =========="@,
        lines[2] == ""@,
        lines[3] == "Stop reason: "@ + stop.text(),
        stop == CpuStop::Ecall ==> lines[4] == "ECALL a7(code)="@ + text::dec(cpu.x[17] as nat)
            + " a0(value)="@ + text::dec(cpu.x[10] as nat) && lines[5] == "PC: "@
            + debug_ui::hex8(cpu.pc),
        stop != CpuStop::Ecall ==> lines[4] == "PC: "@ + debug_ui::hex8(cpu.pc),
{
}

/// Behind its opening a report has one line for each counter, and each line shows the counter
/// that its label names.
pub proof fn law_report_shows_counters(
    lines: Seq<Seq<char>>,
    stop: CpuStop,
    cpu: CpuModel,
    stats: StatsModel,
    dump_registers: bool,
    config: ConfigModel,
)
    requires
        reports(lines, stop, cpu, stats, dump_registers, config),
    ensures
        ({
            let at: int = if stop == CpuStop::Ecall {
                6
            } else {
                5
            };
            &&& lines.len() >= at + 14
            &&& lines[at] == "Score (cycles): "@ + text::dec(stats.cycles as nat)
            &&& lines[at + 1] == "Instructions retired: "@ + text::dec(stats.instret as nat)
            &&& lines[at + 2] == "Memory accesses: "@ + text::dec(stats.memory_access_count as nat)
            &&& lines[at + 3] == "Instruction fetches: "@ + text::dec(stats.instruction_fetches as nat)
            &&& lines[at + 4] == "Data loads: "@ + text::dec(stats.data_loads as nat)
            &&& lines[at + 5] == "Data stores: "@ + text::dec(stats.data_stores as nat)
            &&& lines[at + 6] == "Syscalls: "@ + text::dec(stats.syscall_count as nat)
            &&& lines[at + 7] == "Syscall cycles contribution: "@ + text::dec(stats.syscall_cycles as nat)
            &&& lines[at + 8] == "I/O cycles contribution: "@ + text::dec(stats.io_cycles as nat)
            &&& lines[at + 9] == "IO Bytes Written: "@ + text::dec(stats.io_bytes_written as nat)
            &&& lines[at + 10] == "Cache hits L1I: "@ + text::dec(stats.cache_hits.l1i as nat)
            &&& lines[at + 11] == "Cache hits L1D: "@ + text::dec(stats.cache_hits.l1d as nat)
            &&& lines[at + 12] == "Cache hits L2: "@ + text::dec(stats.cache_hits.l2 as nat)
            &&& lines[at + 13] == "Cache hits L3: "@ + text::dec(stats.cache_hits.l3 as nat)
        }),
{
}

/// Lines with one label are the same only for the same number.
proof fn lemma_labelled_apart(label: Seq<char>, n: u64, m: u64)
    ensures
        labelled(label, n) == labelled(label, m) <==> n == m,
{
    crate::number::law_long_numbers_read_back(n, 0);
    crate::number::law_long_numbers_read_back(m, 0);
    assert(labelled(label, n).skip(label.len() as int) == text::dec(n as nat));
    assert(labelled(label, m).skip(label.len() as int) == text::dec(m as nat));
}

/// Two runs that stopped alike, with the same system calls, have reports that differ in the lines
/// of those counters in which the runs differ, and in no other line.
pub proof fn law_reports_differ_by_counters(
    a: Seq<Seq<char>>,
    b: Seq<Seq<char>>,
    stop: CpuStop,
    cpu: CpuModel,
    stats: StatsModel,
    other: StatsModel,
    dump_registers: bool,
    config: ConfigModel,
)
    requires
        reports(a, stop, cpu, stats, dump_registers, config),
        reports(b, stop, cpu, other, dump_registers, config),
        stats.syscall_hits == other.syscall_hits,
        stats.syscall_cycle_totals == other.syscall_cycle_totals,
    ensures
        ({
            let at: int = if stop == CpuStop::Ecall {
                6
            } else {
                5
            };
            &&& a.len() == b.len()
            &&& forall|i: int| 0 <= i < a.len() && !(at <= i < at + 14) ==> a[i] == b[i]
            &&& (a[at] == b[at]) == (stats.cycles == other.cycles)
            &&& (a[at + 1] == b[at + 1]) == (stats.instret == other.instret)
            &&& (a[at + 2] == b[at + 2]) == (stats.memory_access_count == other.memory_access_count)
            &&& (a[at + 3] == b[at + 3]) == (stats.instruction_fetches == other.instruction_fetches)
            &&& (a[at + 4] == b[at + 4]) == (stats.data_loads == other.data_loads)
            &&& (a[at + 5] == b[at + 5]) == (stats.data_stores == other.data_stores)
            &&& (a[at + 6] == b[at + 6]) == (stats.syscall_count == other.syscall_count)
            &&& (a[at + 7] == b[at + 7]) == (stats.syscall_cycles == other.syscall_cycles)
            &&& (a[at + 8] == b[at + 8]) == (stats.io_cycles == other.io_cycles)
            &&& (a[at + 9] == b[at + 9]) == (stats.io_bytes_written == other.io_bytes_written)
            &&& (a[at + 10] == b[at + 10]) == (stats.cache_hits.l1i == other.cache_hits.l1i)
            &&& (a[at + 11] == b[at + 11]) == (stats.cache_hits.l1d == other.cache_hits.l1d)
            &&& (a[at + 12] == b[at + 12]) == (stats.cache_hits.l2 == other.cache_hits.l2)
            &&& (a[at + 13] == b[at + 13]) == (stats.cache_hits.l3 == other.cache_hits.l3)
        }),
{
    let codes = choose|codes: Seq<u32>| #[trigger]
        is_breakdown(codes, stats.syscall_hits) && a == report(
            stop,
            cpu,
            stats,
            dump_registers,
            config,
            codes,
        );
    let others = choose|codes: Seq<u32>| #[trigger]
        is_breakdown(codes, other.syscall_hits) && b == report(
            stop,
            cpu,
            other,
            dump_registers,
            config,
            codes,
        );
    law_one_breakdown(codes, others, stats.syscall_hits);
    assert forall|i: int| 0 <= i < codes.len() implies call_line(
        #[trigger] codes[i],
        stats,
        config,
    ) == call_line(codes[i], other, config) by {}
    assert(call_lines(codes, stats, config) =~= call_lines(codes, other, config));
    law_report_shows_counters(a, stop, cpu, stats, dump_registers, config);
    law_report_shows_counters(b, stop, cpu, other, dump_registers, config);
    lemma_labelled_apart("Score (cycles): "@, stats.cycles, other.cycles);
    lemma_labelled_apart("Instructions retired: "@, stats.instret, other.instret);
    lemma_labelled_apart("Memory accesses: "@, stats.memory_access_count, other.memory_access_count);
    lemma_labelled_apart("Instruction fetches: "@, stats.instruction_fetches, other.instruction_fetches);
    lemma_labelled_apart("Data loads: "@, stats.data_loads, other.data_loads);
    lemma_labelled_apart("Data stores: "@, stats.data_stores, other.data_stores);
    lemma_labelled_apart("Syscalls: "@, stats.syscall_count, other.syscall_count);
    lemma_labelled_apart("Syscall cycles contribution: "@, stats.syscall_cycles, other.syscall_cycles);
    lemma_labelled_apart("I/O cycles contribution: "@, stats.io_cycles, other.io_cycles);
    lemma_labelled_apart("IO Bytes Written: "@, stats.io_bytes_written, other.io_bytes_written);
    lemma_labelled_apart("Cache hits L1I: "@, stats.cache_hits.l1i, other.cache_hits.l1i);
    lemma_labelled_apart("Cache hits L1D: "@, stats.cache_hits.l1d, other.cache_hits.l1d);
    lemma_labelled_apart("Cache hits L2: "@, stats.cache_hits.l2, other.cache_hits.l2);
    lemma_labelled_apart("Cache hits L3: "@, stats.cache_hits.l3, other.cache_hits.l3);
}

/// Behind its counters a report has a line for each kind of system call that was made, from low
/// numbers to high ones, under a heading; it has neither if none was made.
pub proof fn law_report_shows_calls(
    lines: Seq<Seq<char>>,
    stop: CpuStop,
    cpu: CpuModel,
    stats: StatsModel,
    dump_registers: bool,
    config: ConfigModel,
    codes: Seq<u32>,
)
    requires
        reports(lines, stop, cpu, stats, dump_registers, config),
        forall|i: int, j: int| 0 <= i < j < codes.len() ==> codes[i] < codes[j],
        forall|code: u32|
            codes.contains(code) <==> #[trigger] stats.syscall_hits.contains_key(code),
    ensures
        ({
            let at: int = if stop == CpuStop::Ecall {
                20
            } else {
                19
            };
            let registers: int = if dump_registers {
                34
            } else {
                0
            };
            &&& codes.len() == 0 ==> lines.len() == at + registers
            &&& codes.len() > 0 ==> lines.len() == at + 2 + codes.len() + registers
            &&& codes.len() > 0 ==> lines[at] == ""@ && lines[at + 1] == "Syscall breakdown:"@
            &&& forall|i: int|
                0 <= i < codes.len() ==> lines[at + 2 + i] == call_line(
                    #[trigger] codes[i],
                    stats,
                    config,
                )
        }),
{
    let others = choose|codes: Seq<u32>| #[trigger]
        is_breakdown(codes, stats.syscall_hits) && lines == report(
            stop,
            cpu,
            stats,
            dump_registers,
            config,
            codes,
        );
    assert(is_breakdown(codes, stats.syscall_hits));
    law_one_breakdown(codes, others, stats.syscall_hits);
    let at: int = if stop == CpuStop::Ecall {
        20
    } else {
        19
    };
    assert forall|i: int| 0 <= i < codes.len() implies lines[at + 2 + i] == call_line(
        #[trigger] codes[i],
        stats,
        config,
    ) by {
        assert(lines[at + 2 + i] == call_lines(codes, stats, config)[2 + i]);
    }
}

/// The line about a kind of system call shows its number, how often it was made, what one call
/// costs at least, what its calls cost beyond that, and what they cost in all: the last is what
/// the calls cost at least and what they cost beyond that.
pub proof fn law_call_lines(
    code: u32,
    stats: StatsModel,
    config: ConfigModel,
    base: u64,
    extra: u64,
    total: u64,
)
    requires
        stats.syscall_hits.contains_key(code),
        stats.syscall_cycle_totals.contains_key(code),
        stats.syscall_cycle_totals[code] == total,
        config.syscall_cycles.contains_key(code) ==> base == config.syscall_cycles[code],
        !config.syscall_cycles.contains_key(code) ==> base == config.default_syscall_cycles,
        total == base * stats.syscall_hits[code] + extra,
    ensures
        call_line(code, stats, config) == "  syscall "@ + text::dec(code as nat) + ": count="@
            + text::dec(stats.syscall_hits[code] as nat) + " base_cycles_each="@ + text::dec(
            base as nat,
        ) + " variable_cycles="@ + text::dec(extra as nat) + " subtotal="@ + text::dec(
            total as nat,
        ),
{
}

/// A kind of call without a total cost nothing; what calls cost beyond their base price is never
/// less than nothing.
pub proof fn law_calls_without_total(code: u32, stats: StatsModel, config: ConfigModel)
    requires
        stats.syscall_hits.contains_key(code),
        !stats.syscall_cycle_totals.contains_key(code),
    ensures
        call_line(code, stats, config) == "  syscall "@ + text::dec(code as nat) + ": count="@
            + text::dec(stats.syscall_hits[code] as nat) + " base_cycles_each="@ + text::dec(
            config.cycles_for(code) as nat,
        ) + " variable_cycles="@ + text::dec(0) + " subtotal="@ + text::dec(0),
        forall|total: u64, base: u64, count: u64|
            base * count >= total ==> #[trigger] variable_cycles(total, base, count) == 0,
{
    let base = config.cycles_for(code);
    let count = stats.syscall_hits[code];
    assert(base * count >= 0) by (nonlinear_arith)
        requires
            base >= 0,
            count >= 0,
    ;
}

/// A report with registers ends with one line for each of the thirty-two, from the first on, with
/// the number, the value in hexadecimal, and the value as a number with a sign.
pub proof fn law_report_shows_registers(
    lines: Seq<Seq<char>>,
    stop: CpuStop,
    cpu: CpuModel,
    stats: StatsModel,
    config: ConfigModel,
    i: int,
)
    requires
        reports(lines, stop, cpu, stats, true, config),
        0 <= i < 32,
    ensures
        lines.len() >= 34,
        lines[lines.len() - 34] == ""@,
        lines[lines.len() - 33] == "Registers:"@,
        i < 10 ==> lines[lines.len() - 32 + i] == "x0"@ + text::dec(i as nat) + ": "@
            + debug_ui::hex8(cpu.x[i]) + " ("@ + text::signed(as_signed(cpu.x[i])) + ")"@,
        i >= 10 ==> lines[lines.len() - 32 + i] == "x"@ + text::dec(i as nat) + ": "@
            + debug_ui::hex8(cpu.x[i]) + " ("@ + text::signed(as_signed(cpu.x[i])) + ")"@,
        cpu.x[i] < 0x8000_0000 ==> as_signed(cpu.x[i]) == cpu.x[i],
        cpu.x[i] >= 0x8000_0000 ==> as_signed(cpu.x[i]) == cpu.x[i] - 0x1_0000_0000,
{
    lemma_two_digits(i as nat);
    reveal_strlit("x0");
    reveal_strlit("x");
    let last = register_lines(cpu.x, 32);
    assert(last.len() == 34);
    assert(last[2 + i] == register_line(i, cpu.x[i]));
    assert(forall|k: int| 0 <= k < 34 ==> lines[lines.len() - 34 + k] == last[k]);
    assert(lines[lines.len() - 34 + (2 + i)] == last[2 + i]);
    if i < 10 {
        assert("x"@ + text::zero_padded(text::dec(i as nat), 2) =~= "x0"@ + text::dec(i as nat));
    } else {
        assert("x"@ + text::zero_padded(text::dec(i as nat), 2) =~= "x"@ + text::dec(i as nat));
    }
}

/// Without registers a report says nothing about them: with them it has the same lines, and the
/// registers behind.
pub proof fn law_registers_come_last(
    lines: Seq<Seq<char>>,
    stop: CpuStop,
    cpu: CpuModel,
    stats: StatsModel,
    config: ConfigModel,
)
    requires
        reports(lines, stop, cpu, stats, true, config),
    ensures
        reports(lines.take(lines.len() - 34), stop, cpu, stats, false, config),
{
    let codes = choose|codes: Seq<u32>| #[trigger]
        is_breakdown(codes, stats.syscall_hits) && lines == report(
            stop,
            cpu,
            stats,
            true,
            config,
            codes,
        );
    assert(lines.take(lines.len() - 34) =~= report(stop, cpu, stats, false, config, codes));
}

/// A run starts at the entry point of its program, with nothing in its registers, nothing counted
/// and nothing written out, in a memory that holds the program alone.
pub proof fn law_prepared(blob: Seq<u8>, options: VmRuntimeOptions, config: ConfigModel)
    ensures
        ({
            let machine = prepared(blob, options, config);
            &&& machine.cpu.pc == elf::entry(blob)
            &&& machine.cpu.x.len() == 32
            &&& forall|i: int| 0 <= i < 32 ==> machine.cpu.x[i] == 0
            &&& machine.stats.cycles == 0 && machine.stats.instret == 0
            &&& machine.output.len() == 0
            &&& machine.memory == elf::loaded(
                MemoryModel::fresh(options, config),
                blob,
                elf::segment_count(blob),
            )
        }),
{
}

/// A run may count as many instructions as its settings say, and as many as can be counted if they
/// do not say; its end is told as the system call that it was, and any other stop as it is.
pub proof fn law_finished(machine: MachineModel, options: VmRuntimeOptions, config: ConfigModel)
    ensures
        ({
            let cap = if options.max_instructions is Some {
                options.max_instructions->0
            } else {
                0xffff_ffff_ffff_ffff
            };
            let (after, end) = machine.driven(config, cap, Set::empty());
            let (result, stop) = finished(machine, options, config);
            &&& result == after
            &&& end matches RunEnd::Stopped(why) ==> stop == why
            &&& end !is Stopped ==> stop == CpuStop::Ecall
        }),
{
}

} // verus!
