use hecate_vm::config::{SimConfig, VmRuntimeOptions};
use hecate_vm::cpu::{CpuSnapshot, CpuStop};
use hecate_vm::report::{breakdown, prepare, report_result, run_elf, run_on};
use hecate_vm::stats::RunStats;
use std::collections::HashMap;

const BASE: u32 = 0x1000;

fn options() -> VmRuntimeOptions {
    VmRuntimeOptions {
        cache_line_size: 64,
        l1_size: 32 * 1024,
        l2_size: 256 * 1024,
        l3_size: 8 * 1024 * 1024,
        max_instructions: None,
    }
}

fn elf(code: &[u32]) -> Vec<u8> {
    let mut out: Vec<u8> = vec![0x7f, 0x45, 0x4c, 0x46, 1, 1, 1, 0, 0, 0, 0, 0, 0, 0, 0, 0];
    out.extend_from_slice(&2u16.to_le_bytes());
    out.extend_from_slice(&243u16.to_le_bytes());
    for word in [1u32, BASE, 52, 0, 0] {
        out.extend_from_slice(&word.to_le_bytes());
    }
    for half in [52u16, 32, 1, 0, 0, 0] {
        out.extend_from_slice(&half.to_le_bytes());
    }
    let len = code.len() as u32 * 4;
    for word in [1u32, 84, BASE, BASE, len, len, 7, 4] {
        out.extend_from_slice(&word.to_le_bytes());
    }
    for word in code {
        out.extend_from_slice(&word.to_le_bytes());
    }
    out
}

#[test]
fn a_program_is_run_and_reported() {
    // Writes two bytes of the program, then ends: a0 = 1, a1 = 0x1000, a2 = 2, a7 = 64 and 93.
    let code = [
        0x0010_0513,
        0x0000_15b7,
        0x0020_0613,
        0x0400_0893,
        0x0000_0073,
        0x0000_0013,
        0x05d0_0893,
        0x0000_0073,
    ];
    let run =
        run_elf("demo".to_string(), &elf(&code), options(), false, &SimConfig::default()).unwrap();
    assert_eq!(run.output, vec![0x13, 0x05]);
    assert_eq!(
        run.lines,
        vec![
            "",
            "========== RESULT/STATS ==========",
            "",
            "Stop reason: Ecall",
            "ECALL a7(code)=93 a0(value)=2",
            "PC: 0x00001020",
            "Score (cycles): 1190",
            "Instructions retired: 9",
            "Memory accesses: 7",
            "Instruction fetches: 7",
            "Data loads: 0",
            "Data stores: 0",
            "Syscalls: 2",
            "Syscall cycles contribution: 1040",
            "I/O cycles contribution: 40",
            "IO Bytes Written: 2",
            "Cache hits L1I: 6",
            "Cache hits L1D: 0",
            "Cache hits L2: 0",
            "Cache hits L3: 0",
            "",
            "Syscall breakdown:",
            "  syscall 64: count=1 base_cycles_each=500 variable_cycles=40 subtotal=540",
            "  syscall 93: count=1 base_cycles_each=500 variable_cycles=0 subtotal=500",
        ]
    );
}

#[test]
fn a_run_stops_at_its_quota() {
    let mut settings = options();
    settings.max_instructions = Some(3);
    let run =
        run_elf("loop".to_string(), &elf(&[0x6f]), settings, false, &SimConfig::default()).unwrap();
    assert_eq!(run.lines[3], "Stop reason: QuotaExceeded");
    assert_eq!(run.lines[4], "PC: 0x00001000");
    assert_eq!(run.lines[6], "Instructions retired: 3");
    assert_eq!(run.lines.len(), 19);
}

#[test]
fn a_run_needs_a_program() {
    let error =
        run_elf("bad".to_string(), b"no", options(), false, &SimConfig::default()).unwrap_err();
    assert_eq!(
        error.message(),
        "ELF parse failed for bad: file too short to contain headers"
    );
}

#[test]
fn registers_are_listed() {
    let mut cpu = CpuSnapshot::new(0x10);
    cpu.x[1] = 0xffff_ffff;
    cpu.x[31] = 0x8000_0000;
    let lines = report_result(
        CpuStop::IllegalAccess,
        &cpu,
        &RunStats::default(),
        true,
        &SimConfig::default(),
    );
    assert_eq!(lines[3], "Stop reason: IllegalAccess");
    assert_eq!(lines[4], "PC: 0x00000010");
    let registers = &lines[lines.len() - 34..];
    assert_eq!(registers[0], "");
    assert_eq!(registers[1], "Registers:");
    assert_eq!(registers[2], "x00: 0x00000000 (0)");
    assert_eq!(registers[3], "x01: 0xffffffff (-1)");
    assert_eq!(registers[12], "x10: 0x00000000 (0)");
    assert_eq!(registers[33], "x31: 0x80000000 (-2147483648)");
}

#[test]
fn a_total_below_the_base_price_leaves_nothing() {
    let mut stats = RunStats::default();
    stats.syscall_hits.insert(7, u64::MAX);
    stats.syscall_hits.insert(3, 2);
    stats.syscall_cycle_totals.insert(7, 9);
    let lines =
        report_result(CpuStop::Ebreak, &CpuSnapshot::new(0), &stats, false, &SimConfig::default());
    assert_eq!(
        lines[lines.len() - 2..],
        [
            "  syscall 3: count=2 base_cycles_each=500 variable_cycles=0 subtotal=0".to_string(),
            "  syscall 7: count=18446744073709551615 base_cycles_each=500 variable_cycles=0 \
             subtotal=9"
                .to_string(),
        ]
    );
}

#[test]
fn calls_are_listed_in_order() {
    let hits: HashMap<u32, u64> = [93, 5, 64, 1, u32::MAX].into_iter().map(|c| (c, 1)).collect();
    assert_eq!(breakdown(&hits), vec![1, 5, 64, 93, u32::MAX]);
    assert_eq!(breakdown(&HashMap::new()), Vec::<u32>::new());
}

#[test]
fn stops_have_names() {
    let names: Vec<String> = [
        CpuStop::MisalignedFetch,
        CpuStop::IllegalFetch,
        CpuStop::IllegalInstruction,
        CpuStop::IllegalAccess,
        CpuStop::MisalignedAccess,
        CpuStop::Ecall,
        CpuStop::Ebreak,
        CpuStop::QuotaExceeded,
    ]
    .iter()
    .map(|stop| stop.name())
    .collect();
    assert_eq!(
        names.join(" "),
        "MisalignedFetch IllegalFetch IllegalInstruction IllegalAccess MisalignedAccess Ecall \
         Ebreak QuotaExceeded"
    );
}

#[test]
fn a_run_shows_its_output_at_each_call() {
    // Writes two bytes of the program, then loops for ever: a0 = 1, a1 = 0x1000, a2 = 2, a7 = 64.
    let code = [
        0x0010_0513,
        0x0000_15b7,
        0x0020_0613,
        0x0400_0893,
        0x0000_0073,
        0x0000_0013,
        0x0000_006f,
    ];
    let mut settings = options();
    settings.max_instructions = Some(50);
    let config = SimConfig::default();
    let mut machine = prepare(&elf(&code), settings, &config).unwrap();
    assert_eq!(run_on(&mut machine, settings, &config), None);
    assert_eq!(machine.output, vec![0x13, 0x05]);
    assert_eq!(machine.stats.instret, 6);
    assert_eq!(run_on(&mut machine, settings, &config), Some(CpuStop::QuotaExceeded));
    assert_eq!(machine.stats.instret, 50);
    let whole = run_elf("demo".to_string(), &elf(&code), settings, false, &config).unwrap();
    assert_eq!(whole.output, machine.output);
    assert_eq!(
        whole.lines,
        report_result(CpuStop::QuotaExceeded, &machine.cpu, &machine.stats, false, &config)
    );
}
