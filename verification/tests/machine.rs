use hecate_vm::config::{SimConfig, VmRuntimeOptions};
use hecate_vm::cpu::{run_interp, CpuSnapshot, CpuStop, LAST_WORD};
use hecate_vm::elf::{check_elf, ElfError, ElfVerdict};
use hecate_vm::memory::{HecateMemory, MemoryReadResult};
use hecate_vm::stats::RunStats;
use hecate_vm::vm::{hash_bytes, HecateVm, ResetMemoryPolicy, VmError, VmState, VmStopReason};

const BASE: u32 = 0x1000;
const ECALL: u32 = 0x0000_0073;
const EBREAK: u32 = 0x0010_0073;
const NOP: u32 = 0x0000_0013;
const RET: u32 = 0x0000_8067;

fn options() -> VmRuntimeOptions {
    VmRuntimeOptions {
        cache_line_size: 64,
        l1_size: 32 * 1024,
        l2_size: 256 * 1024,
        l3_size: 8 * 1024 * 1024,
        max_instructions: None,
    }
}

/// A program of one loadable segment at `BASE`, with `extra` zero bytes behind it in memory.
fn elf_with(body: &[u8], extra: u32) -> Vec<u8> {
    let mut out: Vec<u8> = vec![0x7f, 0x45, 0x4c, 0x46, 1, 1, 1, 0, 0, 0, 0, 0, 0, 0, 0, 0];
    out.extend_from_slice(&2u16.to_le_bytes());
    out.extend_from_slice(&243u16.to_le_bytes());
    for word in [1u32, BASE, 52, 0, 0] {
        out.extend_from_slice(&word.to_le_bytes());
    }
    for half in [52u16, 32, 1, 0, 0, 0] {
        out.extend_from_slice(&half.to_le_bytes());
    }
    let len = body.len() as u32;
    for word in [1u32, 84, BASE, BASE, len, len + extra, 7, 4] {
        out.extend_from_slice(&word.to_le_bytes());
    }
    out.extend_from_slice(body);
    out
}

fn words(code: &[u32]) -> Vec<u8> {
    code.iter().flat_map(|word| word.to_le_bytes()).collect()
}

fn elf(code: &[u32]) -> Vec<u8> {
    elf_with(&words(code), 0)
}

fn addi(rd: u32, rs1: u32, imm: u32) -> u32 {
    ((imm & 0xfff) << 20) | (rs1 << 15) | (rd << 7) | 0x13
}

fn lui(rd: u32, upper: u32) -> u32 {
    (upper << 12) | (rd << 7) | 0x37
}

fn jal(rd: u32, offset: u32) -> u32 {
    ((offset & 0x7fe) << 20) | (rd << 7) | 0x6f
}

/// Writes `text` to the stream `fd`, then ends. A system call skips the instruction behind it.
fn hello(fd: u32, text: &[u8]) -> Vec<u8> {
    let mut body = words(&[
        addi(10, 0, fd),
        lui(11, 1),
        addi(11, 11, 36),
        addi(12, 0, text.len() as u32),
        addi(17, 0, 64),
        ECALL,
        NOP,
        addi(17, 0, 93),
        ECALL,
    ]);
    body.extend_from_slice(text);
    elf_with(&body, 0)
}

fn vm_with(blob: &[u8]) -> HecateVm {
    let mut vm = HecateVm::new(options(), SimConfig::default());
    vm.load("program".to_string(), blob).unwrap();
    vm
}

fn run_to_end(vm: &mut HecateVm) -> VmState {
    vm.run().unwrap();
    vm.tick_running(100_000);
    vm.state()
}

#[test]
fn machine_without_program_does_not_move() {
    let mut vm = HecateVm::new(options(), SimConfig::default());
    let error = vm.step().unwrap_err();
    assert!(matches!(error, VmError::Halted));
    assert_eq!(error.message(), "Program is halted or not loaded");
    assert!(vm.step_count(5).is_err());
    assert!(vm.step_over().is_err());
    assert!(vm.step_out().is_err());
    assert!(vm.run().is_err());
    vm.tick_running(10);
    let state = vm.pause();
    assert!(state.halted && !state.running);
    assert!(matches!(state.stop_reason, VmStopReason::NoProgramLoaded));
    assert_eq!(state.stats.instret, 0);
    assert_eq!(state.current_instruction.text, "Unavailable (memory unmapped at PC)");
}

#[test]
fn loaded_program_is_ready() {
    let blob = elf(&[addi(1, 0, 5), NOP]);
    let mut vm = HecateVm::new(options(), SimConfig::default());
    let state = vm.load("demo".to_string(), &blob).unwrap();
    assert!(!state.halted && !state.running);
    assert!(matches!(state.stop_reason, VmStopReason::ProgramLoaded));
    assert_eq!((state.pc, state.entry_point), (BASE, BASE));
    assert_eq!(state.loaded_binary_name.as_deref(), Some("demo"));
    assert_eq!(state.loaded_binary_hash, Some(hash_bytes(&blob)));
    assert_eq!(state.registers, [0; 32]);
    assert_eq!(state.floating_registers, [0; 32]);
    assert_eq!(state.current_instruction.text, "addi x1, x0, 5 (93 00 50 00)");
    assert_eq!(vm.loaded_binary().unwrap().bytes, blob);
    assert_eq!(vm.entry_point(), BASE);
    assert!(!vm.is_halted() && !vm.is_running() && vm.is_consistent());
    assert_eq!(vm.options(), options());
    assert_eq!(vm.config().memory_latency, 125);
}

#[test]
fn digests() {
    assert_eq!(
        hash_bytes(b"abc"),
        "ba7816bf8f01cfea414140de5dae2223b00361a396177a9cb410ff61f20015ad"
    );
    assert_eq!(
        hash_bytes(b""),
        "e3b0c44298fc1c149afbf4c8996fb92427ae41e4649b934ca495991b7852b855"
    );
    assert_eq!(hash_bytes(b"abc").len(), 64);
}

#[test]
fn exit_halts_the_machine() {
    let mut vm = vm_with(&elf(&[addi(17, 0, 93), ECALL]));
    let state = run_to_end(&mut vm);
    assert!(state.halted && !state.running);
    assert!(matches!(state.stop_reason, VmStopReason::ProgramExited));
    assert_eq!(state.registers[17], 93);
    // Two instructions, and the call once more.
    assert_eq!(state.stats.instret, 3);
    assert_eq!(state.stats.syscall_count, 1);
    assert_eq!(state.stats.syscall_cycles, 500);
    assert_eq!(state.stats.syscall_hits.get(&93), Some(&1));
    assert_eq!(state.stats.syscall_cycle_totals.get(&93), Some(&500));
    assert_eq!(state.stats.instruction_fetches, 2);
    assert_eq!(state.stats.cache_hits.l1i, 1);
    // A miss in all caches, a hit in the first one, two instructions and the call.
    assert_eq!(state.stats.cycles, 125 + 3 + 2 + 500);
    assert_eq!(state.pc, BASE + 8);
}

#[test]
fn written_bytes_come_out() {
    let mut vm = vm_with(&hello(1, b"hi!\n"));
    let state = run_to_end(&mut vm);
    assert!(matches!(state.stop_reason, VmStopReason::ProgramExited));
    assert_eq!(vm.take_output(), b"hi!\n");
    assert_eq!(vm.take_output(), b"");
    assert_eq!(state.registers[10], 4);
    assert_eq!(state.stats.io_bytes_written, 4);
    assert_eq!(state.stats.io_cycles, 80);
    assert_eq!(state.stats.syscall_count, 2);
    assert_eq!(state.stats.syscall_cycles, 2 * 500 + 80);
    assert_eq!(state.stats.syscall_cycle_totals.get(&64), Some(&580));
    // Eight instructions were executed, and two of them called.
    assert_eq!(state.stats.instret, 8 + 2);
}

#[test]
fn writes_to_the_error_stream_come_out_too() {
    let mut vm = vm_with(&hello(2, b"oops"));
    run_to_end(&mut vm);
    assert_eq!(vm.take_output(), b"oops");
}

#[test]
fn writes_elsewhere_are_ignored() {
    let mut vm = vm_with(&hello(3, b"oops"));
    let state = run_to_end(&mut vm);
    assert_eq!(vm.take_output(), b"");
    assert_eq!(state.registers[10], 0);
    assert_eq!(state.stats.io_cycles, 0);
    assert_eq!(state.stats.syscall_cycle_totals.get(&64), Some(&500));
}

#[test]
fn unknown_calls_cost_and_go_on() {
    let mut config = SimConfig::default();
    config.syscall_cycles.insert(7, 11);
    let mut vm = HecateVm::new(options(), config);
    let code = [addi(17, 0, 7), ECALL, NOP, addi(17, 0, 93), ECALL];
    vm.load("calls".to_string(), &elf(&code)).unwrap();
    let state = run_to_end(&mut vm);
    assert!(matches!(state.stop_reason, VmStopReason::ProgramExited));
    assert_eq!(state.stats.syscall_cycles, 511);
    assert_eq!(state.stats.syscall_hits.get(&7), Some(&1));
}

#[test]
fn counters_add_up() {
    let mut vm = vm_with(&hello(1, b"0123456789"));
    let stats = run_to_end(&mut vm).stats;
    assert_eq!(stats.syscall_hits.values().sum::<u64>(), stats.syscall_count);
    assert_eq!(stats.syscall_cycle_totals.values().sum::<u64>(), stats.syscall_cycles);
    assert_eq!(
        stats.memory_access_count,
        stats.instruction_fetches + stats.data_loads + stats.data_stores
    );
    let mut calls: Vec<u32> = stats.syscall_hits.keys().copied().collect();
    let mut priced: Vec<u32> = stats.syscall_cycle_totals.keys().copied().collect();
    calls.sort();
    priced.sort();
    assert_eq!(calls, priced);
    assert_eq!(stats.io_cycles, stats.io_bytes_written * vm.config.io_cycles_per_byte);
    assert!(stats.io_cycles <= stats.syscall_cycles && stats.syscall_cycles <= stats.cycles);
}

#[test]
fn the_score_is_instructions_accesses_and_calls() {
    // addi x1, x0, 5; sw x1, 64(x2); lw x3, 64(x2); exit
    let code = [lui(2, 1), addi(1, 0, 5), 0x0411_2023, 0x0401_2183, addi(17, 0, 93), ECALL];
    let mut vm = vm_with(&elf(&code));
    let stats = run_to_end(&mut vm).stats;
    assert_eq!(stats.memory_access_count, 8);
    // Six instructions; a fetch from memory and five from the first cache; a store; a load from
    // the first cache; and the call.
    assert_eq!(stats.cycles, 6 + (125 + 5 * 3) + 1 + 3 + 500);
}

/// Runs the instruction `word` at the last address at which it fits, with `x1` as given.
fn at_the_end(word: Option<u32>, x1: u32) -> (CpuStop, u32, u64) {
    let config = SimConfig::default();
    let mut memory = HecateMemory::new(options(), &config);
    if let Some(word) = word {
        memory.write_bytes_raw(LAST_WORD, &word.to_le_bytes());
    }
    let mut cpu = CpuSnapshot::new(LAST_WORD);
    cpu.x[1] = x1;
    let mut stats = RunStats::default();
    let stop = run_interp(&mut cpu, &mut memory, &mut stats, 1);
    (stop, cpu.pc, stats.instret)
}

#[test]
fn execution_does_not_go_on_behind_the_last_address() {
    let end = (CpuStop::AddressSpaceEnd, LAST_WORD, 0);
    assert_eq!(at_the_end(Some(NOP), 0), end);
    assert_eq!(at_the_end(Some(ECALL), 0), end);
    assert_eq!(at_the_end(None, 0), (CpuStop::IllegalFetch, LAST_WORD, 0));
    assert_eq!(at_the_end(Some(0), 0), (CpuStop::IllegalInstruction, LAST_WORD, 0));
    let jumped = (CpuStop::QuotaExceeded, 4, 1);
    // jal x0, 8; jal x5, 8; jalr x0, 4(x0)
    assert_eq!(at_the_end(Some(0x0080_006f), 0), jumped);
    assert_eq!(at_the_end(Some(0x0080_02ef), 0), jumped);
    assert_eq!(at_the_end(Some(0x0040_0067), 0), jumped);
    // Branches by 8 on x1 and x0: beq, bne, blt, bge, bltu, bgeu.
    let branch = |kind: u32| Some((1 << 15) | (kind << 12) | 0x463);
    for (kind, zero, minus_one) in [
        (0, true, false),
        (1, false, true),
        (4, false, true),
        (5, true, false),
        (6, false, false),
        (7, true, true),
    ] {
        assert_eq!(at_the_end(branch(kind), 0), if zero { jumped } else { end });
        assert_eq!(at_the_end(branch(kind), u32::MAX), if minus_one { jumped } else { end });
    }
}

#[test]
fn a_machine_stays_settled() {
    let mut vm = vm_with(&hello(1, b"x"));
    let state = run_to_end(&mut vm);
    assert!(state.halted && !state.running);
    assert!(state.loaded_binary_name.is_some() && state.loaded_binary_hash.is_some());
    let mut empty = HecateVm::new(options(), SimConfig::default());
    assert!(empty.load("bad".to_string(), &[1, 2, 3]).is_err());
    let state = empty.pause();
    assert!(state.halted && !state.running);
    assert!(state.loaded_binary_name.is_none() && state.loaded_binary_hash.is_none());
    assert!(matches!(state.stop_reason, VmStopReason::NoProgramLoaded));
}

#[test]
fn a_reset_brings_the_program_back() {
    let mut vm = vm_with(&elf_with(&words(&[NOP, NOP]), 4));
    vm.write(BASE, &[1; 12]).unwrap();
    let bounds = vm.machine.memory.bounds;
    vm.reset(ResetMemoryPolicy::Ignore, None).unwrap();
    let mut wanted = words(&[NOP, NOP]);
    wanted.extend_from_slice(&[0; 4]);
    assert_eq!(vm.machine.memory.read_program_bytes(BASE, 12), wanted);
    assert_eq!(vm.machine.memory.bounds, bounds);
}

#[test]
fn a_break_is_a_breakpoint() {
    let mut vm = vm_with(&elf(&[NOP, EBREAK, NOP]));
    let state = run_to_end(&mut vm);
    assert!(!state.halted && !state.running);
    assert!(matches!(state.stop_reason, VmStopReason::Breakpoint { pc } if pc == BASE + 8));
    assert_eq!(state.stats.instret, 2);
    let state = vm.step().unwrap();
    assert!(matches!(state.stop_reason, VmStopReason::StepComplete));
    assert_eq!(state.pc, BASE + 12);
}

#[test]
fn calls_return_to_breakpoints() {
    let mut vm = vm_with(&elf(&[addi(17, 0, 7), ECALL, NOP, NOP, NOP]));
    vm.set_breakpoints(&[0, BASE + 12]);
    let state = run_to_end(&mut vm);
    assert!(matches!(state.stop_reason, VmStopReason::Breakpoint { pc } if pc == BASE + 12));
    assert_eq!(state.pc, BASE + 12);
    assert!(!state.running && !state.halted);
    vm.set_breakpoints(&[]);
    vm.reset(ResetMemoryPolicy::Ignore, Some(7)).unwrap();
    let state = run_to_end(&mut vm);
    assert!(state.halted);
}

#[test]
fn what_cannot_be_fetched_halts() {
    let mut vm = vm_with(&elf(&[NOP]));
    let state = run_to_end(&mut vm);
    assert!(state.halted);
    match state.stop_reason {
        VmStopReason::CpuError { error } => assert_eq!(error, "IllegalFetch"),
        _ => panic!("no error"),
    }
    assert_eq!(state.pc, BASE + 4);
    assert_eq!(state.stats.instret, 1);
    assert_eq!(state.stats.instruction_fetches, 2);
}

#[test]
fn what_is_no_instruction_halts() {
    let mut vm = vm_with(&elf(&[0xffff_ffff]));
    match vm.step().unwrap().stop_reason {
        VmStopReason::CpuError { error } => assert_eq!(error, "IllegalInstruction"),
        _ => panic!("no error"),
    }
}

#[test]
fn what_was_never_written_cannot_be_read() {
    // lw x1, 0(x0)
    let mut vm = vm_with(&elf(&[0x0000_2083]));
    match vm.step().unwrap().stop_reason {
        VmStopReason::CpuError { error } => assert_eq!(error, "IllegalAccess"),
        _ => panic!("no error"),
    }
}

#[test]
fn jumps_to_odd_places_halt() {
    // jalr x0, 2(x0)
    let mut vm = vm_with(&elf(&[0x0020_0067]));
    match vm.step().unwrap().stop_reason {
        VmStopReason::CpuError { error } => assert_eq!(error, "MisalignedFetch"),
        _ => panic!("no error"),
    }
}

#[test]
fn atomic_accesses_are_aligned() {
    // addi x1, x0, 1; amoadd.w x0, x0, (x1)
    let mut vm = vm_with(&elf(&[addi(1, 0, 1), 0x0000_a02f]));
    match vm.step_count(2).unwrap().stop_reason {
        VmStopReason::CpuError { error } => assert_eq!(error, "MisalignedAccess"),
        _ => panic!("no error"),
    }
}

#[test]
fn stored_words_load_again() {
    // sw x1, 64(x2); lw x3, 64(x2); lbu x4, 65(x2)
    let code = [
        lui(2, 1),
        lui(1, 0x12345),
        addi(1, 1, 0x678),
        0x0411_2023,
        0x0401_2183,
        0x0411_4203,
    ];
    let mut vm = vm_with(&elf(&code));
    let state = vm.step_count(6).unwrap();
    assert_eq!(state.registers[3], 0x1234_5678);
    assert_eq!(state.registers[4], 0x56);
    assert_eq!(state.stats.data_stores, 1);
    assert_eq!(state.stats.data_loads, 2);
    assert_eq!(state.stats.cache_hits.l1d, 2);
    match vm.read(BASE + 64, 4).unwrap() {
        MemoryReadResult::Full { bytes, .. } => assert_eq!(bytes, vec![0x78, 0x56, 0x34, 0x12]),
        MemoryReadResult::Partial { .. } => panic!("partial read"),
    }
}

#[test]
fn programs_read_their_own_counters() {
    // csrrs x1, instret, x0; csrrs x2, cycle, x0
    let mut vm = vm_with(&elf(&[NOP, 0xc020_20f3, 0xc000_2173]));
    let state = vm.step_count(3).unwrap();
    assert_eq!(state.registers[1], 1);
    // The fetches of three instructions, and two of them done.
    assert_eq!(state.registers[2], 125 + 3 + 3 + 2);
}

#[test]
fn floating_registers_are_kept() {
    // fmv.w.x f1, x1
    let mut vm = vm_with(&elf(&[lui(1, 0x3f800), 0xf000_80d3]));
    let state = vm.step_count(2).unwrap();
    assert_eq!(state.floating_registers[1], 0xffff_ffff_3f80_0000);
    let dump = vm.dump();
    assert_eq!(dump.cpu.f[1], 0xffff_ffff_3f80_0000);
}

#[test]
fn steps_are_counted() {
    let mut vm = vm_with(&elf(&[NOP; 10]));
    assert_eq!(vm.step().unwrap().pc, BASE + 4);
    let state = vm.step_count(3).unwrap();
    assert_eq!(state.pc, BASE + 16);
    assert!(matches!(state.stop_reason, VmStopReason::StepComplete));
    assert_eq!(vm.step_count(0).unwrap().pc, BASE + 20);
    assert_eq!(vm.state().stats.instret, 5);
}

#[test]
fn a_step_counts_a_system_call_twice() {
    // The instruction behind the call is skipped.
    let code = [addi(17, 0, 7), ECALL, addi(5, 0, 1), addi(6, 0, 2), NOP];
    let mut vm = vm_with(&elf(&code));
    let state = vm.step_count(3).unwrap();
    assert!(matches!(state.stop_reason, VmStopReason::StepComplete));
    assert_eq!((state.stats.instret, state.stats.syscall_count), (4, 1));
    assert_eq!((state.registers[5], state.registers[6]), (0, 2));
    assert_eq!(state.pc, BASE + 16);
}

#[test]
fn steps_count_no_more_than_asked_for_under_a_tight_quota() {
    let mut settings = options();
    settings.max_instructions = Some(4);
    let mut vm = HecateVm::new(settings, SimConfig::default());
    vm.load("quota".to_string(), &elf(&[NOP; 10])).unwrap();
    assert_eq!(vm.step_count(3).unwrap().stats.instret, 3);
    assert_eq!(vm.step_count(3).unwrap().stats.instret, 4);
}

#[test]
fn a_tick_exceeds_its_quantum_only_by_a_call() {
    let mut vm = vm_with(&elf(&[addi(17, 0, 7), ECALL, NOP, NOP, NOP, NOP]));
    vm.run().unwrap();
    vm.tick_running(1);
    assert_eq!(vm.state().stats.instret, 1);
    vm.tick_running(1);
    let stats = vm.state().stats;
    assert_eq!((stats.instret, stats.syscall_count), (3, 1));
    vm.tick_running(2);
    assert_eq!(vm.state().stats.instret, 5);
}

#[test]
fn a_step_over_a_call_stands_behind_it() {
    // A call of a function of two instructions.
    let code = [jal(1, 12), NOP, NOP, addi(5, 0, 9), RET];
    let mut vm = vm_with(&elf(&code));
    let state = vm.step_over().unwrap();
    assert!(matches!(state.stop_reason, VmStopReason::StepOverComplete));
    assert_eq!(state.pc, BASE + 4);
    assert_eq!(state.registers[5], 9);
    let state = vm.step_over().unwrap();
    assert!(matches!(state.stop_reason, VmStopReason::StepComplete));
    assert_eq!(state.pc, BASE + 8);
}

#[test]
fn a_step_over_a_call_stops_at_a_break() {
    let code = [jal(1, 8), NOP, EBREAK, RET];
    let mut vm = vm_with(&elf(&code));
    let state = vm.step_over().unwrap();
    assert!(matches!(state.stop_reason, VmStopReason::Breakpoint { pc } if pc == BASE + 12));
}

#[test]
fn a_step_over_a_call_ends_with_the_program() {
    let code = [jal(1, 8), NOP, addi(17, 0, 93), ECALL];
    let mut vm = vm_with(&elf(&code));
    let state = vm.step_over().unwrap();
    assert!(state.halted);
    assert!(matches!(state.stop_reason, VmStopReason::ProgramExited));
}

#[test]
fn a_step_over_a_call_ends_with_the_quota() {
    let mut settings = options();
    settings.max_instructions = Some(3);
    let mut vm = HecateVm::new(settings, SimConfig::default());
    let code = [jal(1, 8), NOP, NOP, NOP, NOP, NOP];
    vm.load("quota".to_string(), &elf(&code)).unwrap();
    let state = vm.step_over().unwrap();
    assert!(matches!(state.stop_reason, VmStopReason::QuotaReached));
    assert_eq!(state.stats.instret, 3);
    let later = vm.step_count(5).unwrap();
    assert_eq!((later.pc, later.stats.instret), (state.pc, 3));
    assert!(!later.halted);
}

#[test]
fn a_step_out_stands_at_the_return_address() {
    let code = [jal(1, 12), NOP, NOP, NOP, NOP, RET];
    let mut vm = vm_with(&elf(&code));
    vm.step().unwrap();
    let state = vm.step_out().unwrap();
    assert!(matches!(state.stop_reason, VmStopReason::StepOutComplete));
    assert_eq!(state.pc, BASE + 4);
}

#[test]
fn a_step_out_without_return_address_is_a_step() {
    let mut vm = vm_with(&elf(&[NOP, NOP]));
    let state = vm.step_out().unwrap();
    assert!(matches!(state.stop_reason, VmStopReason::StepComplete));
    assert_eq!(state.pc, BASE + 4);
}

#[test]
fn a_step_out_ends_with_the_quota() {
    let mut settings = options();
    settings.max_instructions = Some(4);
    let mut vm = HecateVm::new(settings, SimConfig::default());
    // A function that never returns.
    vm.load("quota".to_string(), &elf(&[jal(1, 8), NOP, jal(0, 0)])).unwrap();
    vm.step().unwrap();
    let state = vm.step_out().unwrap();
    assert!(matches!(state.stop_reason, VmStopReason::QuotaReached));
    assert_eq!(state.stats.instret, 4);
}

#[test]
fn runs_keep_to_their_quota() {
    let mut settings = options();
    settings.max_instructions = Some(7);
    let mut vm = HecateVm::new(settings, SimConfig::default());
    vm.load("loop".to_string(), &elf(&[jal(0, 0)])).unwrap();
    vm.run().unwrap();
    vm.tick_running(5);
    assert_eq!(vm.state().stats.instret, 5);
    assert!(matches!(vm.state().stop_reason, VmStopReason::Running));
    vm.tick_running(5);
    assert_eq!(vm.state().stats.instret, 7);
    vm.tick_running(5);
    assert_eq!(vm.state().stats.instret, 7);
    assert_eq!(vm.effective_quota(Some(9)), Some(7));
    assert_eq!(vm.effective_quota(Some(3)), Some(3));
    assert_eq!(vm.effective_quota(None), Some(7));
}

#[test]
fn a_call_at_the_quota_counts_once_more() {
    let mut settings = options();
    settings.max_instructions = Some(2);
    let mut vm = HecateVm::new(settings, SimConfig::default());
    vm.load("call".to_string(), &elf(&[addi(17, 0, 7), ECALL, NOP, NOP])).unwrap();
    let state = run_to_end(&mut vm);
    assert_eq!(state.stats.instret, 3);
    assert_eq!(state.pc, BASE + 12);
}

#[test]
fn a_paused_machine_does_not_move() {
    let mut vm = vm_with(&elf(&[jal(0, 0)]));
    vm.run().unwrap();
    assert!(vm.is_running());
    let state = vm.pause();
    assert!(matches!(state.stop_reason, VmStopReason::Paused));
    vm.tick_running(100);
    assert_eq!(vm.state().stats.instret, 0);
    vm.run().unwrap();
    vm.tick_running(0);
    assert_eq!(vm.state().stats.instret, 1);
}

#[test]
fn zeros_stand_behind_a_segment() {
    let mut vm = vm_with(&elf_with(&words(&[NOP]), 6));
    match vm.read(BASE, 64).unwrap() {
        MemoryReadResult::Partial { available_len, bytes, .. } => {
            assert_eq!(available_len, 10);
            assert_eq!(bytes, vec![0x13, 0, 0, 0, 0, 0, 0, 0, 0, 0]);
        }
        MemoryReadResult::Full { .. } => panic!("full read"),
    }
    vm.write(BASE + 8, &[7, 8]).unwrap();
    match vm.read(BASE + 8, 2).unwrap() {
        MemoryReadResult::Full { bytes, .. } => assert_eq!(bytes, vec![7, 8]),
        MemoryReadResult::Partial { .. } => panic!("partial read"),
    }
    let error = vm.write(BASE + 9, &[7, 8]).unwrap_err();
    assert_eq!(
        error.message,
        "write range 0x00001009..=0x0000100a exceeds bounds 0x00001000..=0x00001009"
    );
}

#[test]
fn segments_that_are_not_loadable_are_left_out() {
    let mut blob = elf(&[NOP]);
    blob[52] = 4;
    let mut vm = HecateVm::new(options(), SimConfig::default());
    vm.load("note".to_string(), &blob).unwrap();
    assert!(vm.read(BASE, 1).is_err());
}

#[test]
fn files_that_are_no_programs() {
    let good = elf(&[NOP]);
    assert_eq!(check_elf(&good), ElfVerdict::Accepted);
    let changed = |at: usize, byte: u8| {
        let mut blob = good.clone();
        blob[at] = byte;
        blob
    };
    let mut vm = vm_with(&good);
    let mut complaint = |blob: &[u8]| {
        assert_eq!(check_elf(blob), ElfVerdict::Refused);
        vm.load("bad".to_string(), blob).unwrap_err().message()
    };
    assert_eq!(
        complaint(&good[..51]),
        "ELF parse failed for bad: file too short to contain headers"
    );
    assert_eq!(
        complaint(&changed(0, 0)),
        "ELF parse failed for bad: magic mismatch, likely not an ELF"
    );
    assert_eq!(complaint(&changed(4, 2)), "ELF parse failed for bad: only 32-bit class supported");
    assert_eq!(complaint(&changed(6, 9)), "ELF parse failed for bad: unsupported version 9");
    assert_eq!(complaint(&changed(16, 3)), "ELF parse failed for bad: unsupported type 3");
    assert_eq!(complaint(&changed(20, 5)), "ELF parse failed for bad: unsupported version 5");
    assert_eq!(
        complaint(&changed(42, 31)),
        "ELF parse failed for bad: headers smaller than defined in specification"
    );
    assert_eq!(
        complaint(&good[..good.len() - 1]),
        "ELF parse failed for bad: reference to data beyond end of file"
    );
    assert_eq!(
        complaint(&changed(44, 200)),
        "ELF parse failed for bad: reference to data beyond end of file"
    );
    let mut two_faults = changed(4, 2);
    two_faults[6] = 9;
    assert_eq!(complaint(&two_faults), "ELF parse failed for bad: unsupported version 9");
    assert_eq!(
        complaint(&changed(32, 52)),
        "ELF parse failed for bad: headers smaller than defined in specification"
    );
}

#[test]
fn files_beyond_the_32_bit_range() {
    let mut blob = elf(&[NOP]);
    for at in 56..60 {
        blob[at] = 0xff;
    }
    assert_eq!(check_elf(&blob), ElfVerdict::Unaddressable);
    let mut vm = HecateVm::new(options(), SimConfig::default());
    let error = vm.load("far".to_string(), &blob).unwrap_err();
    assert!(matches!(&error, VmError::Elf { error: ElfError::Unaddressable, .. }));
    assert_eq!(
        error.message(),
        "ELF parse failed for far: reference to data beyond the 32-bit range"
    );
}

#[test]
fn a_refused_file_leaves_empty_memory() {
    let mut vm = vm_with(&elf(&[NOP, NOP]));
    vm.step().unwrap();
    assert!(vm.load("bad".to_string(), b"no").is_err());
    let state = vm.state();
    assert_eq!(state.stats.instret, 0);
    assert_eq!(state.pc, BASE + 4);
    assert_eq!(state.loaded_binary_name.as_deref(), Some("program"));
    assert_eq!(vm.read(BASE, 1).unwrap_err().message, "memory is not initialized");
}

#[test]
fn a_reset_makes_the_program_ready_again() {
    for policy in
        [ResetMemoryPolicy::Ignore, ResetMemoryPolicy::Zero, ResetMemoryPolicy::Randomize]
    {
        let mut vm = vm_with(&elf_with(&words(&[addi(1, 0, 5), NOP]), 8));
        vm.step().unwrap();
        vm.write(BASE + 8, &[1, 2, 3]).unwrap();
        let state = vm.reset(policy, Some(7)).unwrap();
        assert!(!state.halted && !state.running);
        assert!(matches!(state.stop_reason, VmStopReason::ProgramLoaded));
        assert_eq!(state.pc, BASE);
        assert_eq!(state.registers, [0; 32]);
        assert_eq!(state.stats.instret, 0);
        match vm.read(BASE, 16).unwrap() {
            MemoryReadResult::Full { bytes, .. } => {
                assert_eq!(bytes[..4], 0x0050_0093u32.to_le_bytes());
                // The zeros behind the segment are part of the program.
                assert_eq!(bytes[8..], [0; 8]);
            }
            MemoryReadResult::Partial { .. } => panic!("partial read"),
        }
    }
}

#[test]
fn a_reset_treats_memory_outside_the_program() {
    // sb x1, 64(x2): a byte behind the program.
    let code = [lui(2, 1), addi(1, 0, 5), 0x0411_0023];
    let byte = |vm: &HecateVm| vm.machine.memory.bytes.get(&(BASE + 64)).copied();
    let mut vm = vm_with(&elf(&code));
    vm.step_count(3).unwrap();
    vm.reset(ResetMemoryPolicy::Ignore, Some(7)).unwrap();
    assert_eq!(byte(&vm), Some(5));
    assert_eq!(vm.machine.memory.bytes.get(&(BASE + 20)), None);
    vm.reset_from(ResetMemoryPolicy::Zero, 1).unwrap();
    assert_eq!(byte(&vm), Some(0));
    assert_eq!(vm.machine.memory.bytes.get(&(BASE + 20)), Some(&0));
    vm.reset_from(ResetMemoryPolicy::Randomize, 1).unwrap();
    let once = vm.machine.memory.read_program_bytes(BASE + 12, 53);
    vm.reset_from(ResetMemoryPolicy::Randomize, 1).unwrap();
    assert_eq!(vm.machine.memory.read_program_bytes(BASE + 12, 53), once);
    vm.reset_from(ResetMemoryPolicy::Randomize, 2).unwrap();
    assert_ne!(vm.machine.memory.read_program_bytes(BASE + 12, 53), once);
}

#[test]
fn a_reset_without_program() {
    let mut vm = HecateVm::new(options(), SimConfig::default());
    let state = vm.reset(ResetMemoryPolicy::Zero, Some(7)).unwrap();
    assert!(state.halted);
    assert!(matches!(state.stop_reason, VmStopReason::NoProgramLoaded));
    assert_eq!((state.pc, state.entry_point), (0, 0));
}

#[test]
fn a_reset_after_loading_changes_nothing() {
    let mut vm = vm_with(&elf_with(&words(&[addi(1, 0, 5), NOP]), 8));
    let before = vm.dump();
    vm.reset(ResetMemoryPolicy::Ignore, Some(7)).unwrap();
    let after = vm.dump();
    assert_eq!(after.memory.bytes, before.memory.bytes);
    assert_eq!(after.memory.bounds, before.memory.bounds);
    assert_eq!(after.cpu.x, before.cpu.x);
    assert_eq!(after.cpu.pc, before.cpu.pc);
    assert_eq!(after.stats.cycles, before.stats.cycles);
}

#[test]
fn a_dump_brings_the_machine_back() {
    let code = [addi(1, 0, 5), addi(2, 1, 6), addi(3, 2, 7), EBREAK];
    let mut vm = vm_with(&elf(&code));
    vm.step_count(2).unwrap();
    let dump = vm.dump();
    let first = run_to_end(&mut vm);
    let mut other = HecateVm::new(options(), SimConfig::default());
    let state = other.restore(dump).unwrap();
    assert_eq!(state.pc, BASE + 8);
    assert_eq!(state.registers[2], 11);
    assert_eq!(state.loaded_binary_name.as_deref(), Some("program"));
    assert!(other.is_consistent());
    let second = run_to_end(&mut other);
    assert_eq!(second.registers, first.registers);
    assert_eq!(second.stats.cycles, first.stats.cycles);
    assert_eq!(second.stats.cache_hits, first.stats.cache_hits);
    assert_eq!(second.stats.instret, first.stats.instret);
}

#[test]
fn a_dump_without_line_size_is_not_consistent() {
    let mut vm = vm_with(&elf(&[NOP]));
    let mut dump = vm.dump();
    dump.options.cache_line_size = 0;
    vm.restore(dump).unwrap();
    assert!(!vm.is_consistent());
}
