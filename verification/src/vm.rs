//! The virtual machine: programs are loaded, run, stepped through, inspected and saved.

use crate::cache::CachesModel;
use crate::config::{ConfigModel, SimConfig, VmRuntimeOptions};
use crate::cpu::{self, CpuModel, CpuSnapshot, CpuStop};
use crate::disasm::{
    self, DecodedInstruction, InstructionFlow, InstructionSnapshot, SnapshotModel,
};
use crate::elf::{self, ElfError, ElfVerdict};
use crate::laws;
use crate::machine::{self, Machine, MachineModel, RunEnd};
use crate::memory::{
    self, AccessErrorModel, HecateMemory, MemoryAccessError, MemoryModel, MemoryReadResult,
    ReadModel, VmMemoryDump,
};
use crate::stats::{RunStats, StatsModel};
use std::collections::HashSet;
use vstd::prelude::*;

verus! {

broadcast use vstd::std_specs::hash::group_hash_axioms;

/// What a reset does to the memory in use before it loads the program again.
#[derive(Debug, Clone, Copy, PartialEq, Eq, Structural)]
pub enum ResetMemoryPolicy {
    Ignore,
    Zero,
    Randomize,
}

/// Why the machine is not running, or that it is.
#[derive(Debug)]
pub enum VmStopReason {
    NoProgramLoaded,
    ProgramLoaded,
    Running,
    Paused,
    StepComplete,
    StepOverComplete,
    StepOutComplete,
    QuotaReached,
    ProgramExited,
    Breakpoint { pc: u32 },
    CpuError { error: String },
}

/// What `VmStopReason` says.
#[verifier::ext_equal]
pub ghost enum StopModel {
    NoProgramLoaded,
    ProgramLoaded,
    Running,
    Paused,
    StepComplete,
    StepOverComplete,
    StepOutComplete,
    QuotaReached,
    ProgramExited,
    Breakpoint { pc: u32 },
    CpuError { error: Seq<char> },
}

impl View for VmStopReason {
    type V = StopModel;

    open spec fn view(&self) -> StopModel {
        match *self {
            VmStopReason::NoProgramLoaded => StopModel::NoProgramLoaded,
            VmStopReason::ProgramLoaded => StopModel::ProgramLoaded,
            VmStopReason::Running => StopModel::Running,
            VmStopReason::Paused => StopModel::Paused,
            VmStopReason::StepComplete => StopModel::StepComplete,
            VmStopReason::StepOverComplete => StopModel::StepOverComplete,
            VmStopReason::StepOutComplete => StopModel::StepOutComplete,
            VmStopReason::QuotaReached => StopModel::QuotaReached,
            VmStopReason::ProgramExited => StopModel::ProgramExited,
            VmStopReason::Breakpoint { pc } => StopModel::Breakpoint { pc },
            VmStopReason::CpuError { error } => StopModel::CpuError { error: error@ },
        }
    }
}

impl Clone for VmStopReason {
    fn clone(&self) -> (copy: Self)
        ensures
            copy@ == self@,
    {
        match self {
            VmStopReason::NoProgramLoaded => VmStopReason::NoProgramLoaded,
            VmStopReason::ProgramLoaded => VmStopReason::ProgramLoaded,
            VmStopReason::Running => VmStopReason::Running,
            VmStopReason::Paused => VmStopReason::Paused,
            VmStopReason::StepComplete => VmStopReason::StepComplete,
            VmStopReason::StepOverComplete => VmStopReason::StepOverComplete,
            VmStopReason::StepOutComplete => VmStopReason::StepOutComplete,
            VmStopReason::QuotaReached => VmStopReason::QuotaReached,
            VmStopReason::ProgramExited => VmStopReason::ProgramExited,
            VmStopReason::Breakpoint { pc } => VmStopReason::Breakpoint { pc: *pc },
            VmStopReason::CpuError { error } => VmStopReason::CpuError { error: error.clone() },
        }
    }
}

/// The program that was loaded last.
#[derive(Debug)]
pub struct LoadedBinary {
    pub name: String,
    pub sha256: String,
    pub bytes: Vec<u8>,
}

/// What `LoadedBinary` says.
#[verifier::ext_equal]
pub ghost struct BinaryModel {
    pub name: Seq<char>,
    pub sha256: Seq<char>,
    pub bytes: Seq<u8>,
}

impl View for LoadedBinary {
    type V = BinaryModel;

    open spec fn view(&self) -> BinaryModel {
        BinaryModel { name: self.name@, sha256: self.sha256@, bytes: self.bytes@ }
    }
}

/// A copy of some bytes.
pub fn copy_bytes(bytes: &[u8]) -> (copy: Vec<u8>)
    ensures
        copy@ == bytes@,
{
    let mut copy: Vec<u8> = Vec::new();
    let mut next: usize = 0;
    while next < bytes.len()
        invariant
            next <= bytes@.len(),
            copy@ == bytes@.take(next as int),
        decreases bytes@.len() - next,
    {
        copy.push(bytes[next]);
        next = next + 1;
    }
    assert(copy@ == bytes@);
    copy
}

impl Clone for LoadedBinary {
    fn clone(&self) -> (copy: Self)
        ensures
            copy@ == self@,
    {
        LoadedBinary {
            name: self.name.clone(),
            sha256: self.sha256.clone(),
            bytes: copy_bytes(self.bytes.as_slice()),
        }
    }
}

/// The view of an optional program.
pub open spec fn optional_binary(binary: Option<LoadedBinary>) -> Option<BinaryModel> {
    match binary {
        Some(binary) => Some(binary@),
        None => None,
    }
}

fn clone_binary(binary: &Option<LoadedBinary>) -> (copy: Option<LoadedBinary>)
    ensures
        optional_binary(copy) == optional_binary(*binary),
{
    match binary {
        Some(binary) => Some(binary.clone()),
        None => None,
    }
}

/// The SHA-256 digest of `bytes`.
pub uninterp spec fn sha256(bytes: Seq<u8>) -> Seq<u8>;

/// Calls `sha2::Sha256::digest`; the digest, of 32 bytes, is named by `sha256`.
#[verifier::external_body]
fn digest(bytes: &[u8]) -> (out: Vec<u8>)
    ensures
        out@ == sha256(bytes@),
        out@.len() == 32,
{
    <sha2::Sha256 as sha2::Digest>::digest(bytes).to_vec()
}

/// `bytes` in hexadecimal, two digits for each.
pub open spec fn hex_of(bytes: Seq<u8>) -> Seq<char>
    decreases bytes.len(),
{
    if bytes.len() == 0 {
        Seq::empty()
    } else {
        hex_of(bytes.drop_last()) + disasm::byte_text(bytes.last())
    }
}

/// `bytes` in hexadecimal, two digits for each.
pub fn to_hex_string(bytes: &[u8]) -> (text: String)
    ensures
        text@ == hex_of(bytes@),
{
    let mut text = String::new();
    let mut next: usize = 0;
    assert(bytes@.take(0) == Seq::<u8>::empty());
    while next < bytes.len()
        invariant
            next <= bytes@.len(),
            text@ == hex_of(bytes@.take(next as int)),
        decreases bytes@.len() - next,
    {
        proof {
            assert(bytes@.take(next + 1).drop_last() == bytes@.take(next as int));
        }
        text = text.concat(crate::text::to_hex_padded(bytes[next] as u32, 2).as_str());
        next = next + 1;
    }
    assert(bytes@.take(next as int) == bytes@);
    text
}

/// The SHA-256 digest of `bytes` in hexadecimal.
pub fn hash_bytes(bytes: &[u8]) -> (text: String)
    ensures
        text@ == hex_of(sha256(bytes@)),
{
    to_hex_string(digest(bytes).as_slice())
}

/// Why the machine refused a request.
#[derive(Debug)]
pub enum VmError {
    /// There is no program to run.
    Halted,
    /// The file under this label is no program.
    Elf { label: String, error: ElfError },
}

/// The text about a file that is no program.
pub open spec fn not_a_program_text(name: Seq<char>, blob: Seq<u8>) -> Seq<char> {
    "ELF parse failed for "@ + name + ": "@ + (if elf::verdict(blob) == ElfVerdict::Refused {
        elf::elf_complaint(blob)
    } else {
        "reference to data beyond the 32-bit range"@
    })
}

/// The text of a complaint about a file.
pub open spec fn elf_error_text(error: ElfError) -> Seq<char> {
    match error {
        ElfError::Refused(complaint) => complaint@,
        ElfError::Unaddressable => "reference to data beyond the 32-bit range"@,
    }
}

impl VmError {
    /// The text of the complaint.
    pub open spec fn text(self) -> Seq<char> {
        match self {
            VmError::Halted => "Program is halted or not loaded"@,
            VmError::Elf { label, error } => "ELF parse failed for "@ + label@ + ": "@
                + elf_error_text(error),
        }
    }

    pub fn message(&self) -> (message: String)
        ensures
            message@ == self.text(),
    {
        match self {
            VmError::Halted => "Program is halted or not loaded".to_owned(),
            VmError::Elf { label, error } => {
                let front = "ELF parse failed for ".to_owned().concat(label.as_str()).concat(": ");
                match error {
                    ElfError::Refused(complaint) => front.concat(complaint.as_str()),
                    ElfError::Unaddressable => front.concat(
                        "reference to data beyond the 32-bit range",
                    ),
                }
            },
        }
    }
}

/// What the machine shows of itself.
#[derive(Debug)]
pub struct VmState {
    pub running: bool,
    pub halted: bool,
    pub pc: u32,
    pub entry_point: u32,
    pub loaded_binary_name: Option<String>,
    pub loaded_binary_hash: Option<String>,
    pub stop_reason: VmStopReason,
    pub current_instruction: InstructionSnapshot,
    pub registers: [u32; 32],
    pub floating_registers: [u64; 32],
    pub fcsr: u32,
    pub reservation: Option<u32>,
    pub stats: RunStats,
}

/// What `VmState` says.
pub ghost struct StateModel {
    pub running: bool,
    pub halted: bool,
    pub pc: u32,
    pub entry_point: u32,
    pub loaded_binary_name: Option<Seq<char>>,
    pub loaded_binary_hash: Option<Seq<char>>,
    pub stop_reason: StopModel,
    pub current_instruction: SnapshotModel,
    pub registers: Seq<u32>,
    pub floating_registers: Seq<u64>,
    pub fcsr: u32,
    pub reservation: Option<u32>,
    pub stats: StatsModel,
}

impl View for VmState {
    type V = StateModel;

    open spec fn view(&self) -> StateModel {
        StateModel {
            running: self.running,
            halted: self.halted,
            pc: self.pc,
            entry_point: self.entry_point,
            loaded_binary_name: disasm::optional(self.loaded_binary_name),
            loaded_binary_hash: disasm::optional(self.loaded_binary_hash),
            stop_reason: self.stop_reason@,
            current_instruction: self.current_instruction@,
            registers: self.registers@,
            floating_registers: self.floating_registers@,
            fcsr: self.fcsr,
            reservation: self.reservation,
            stats: self.stats@,
        }
    }
}

/// A saved machine.
#[derive(Debug)]
pub struct VmDump {
    pub options: VmRuntimeOptions,
    pub config: SimConfig,
    pub loaded_binary: Option<LoadedBinary>,
    pub entry_point: u32,
    pub running: bool,
    pub halted: bool,
    pub stop_reason: VmStopReason,
    pub cpu: CpuSnapshot,
    pub stats: RunStats,
    pub memory: VmMemoryDump,
}

/// What `VmDump` holds.
pub ghost struct DumpModel {
    pub options: VmRuntimeOptions,
    pub config: ConfigModel,
    pub loaded_binary: Option<BinaryModel>,
    pub entry_point: u32,
    pub running: bool,
    pub halted: bool,
    pub stop_reason: StopModel,
    pub cpu: CpuModel,
    pub stats: StatsModel,
    pub memory: MemoryModel,
}

impl View for VmDump {
    type V = DumpModel;

    open spec fn view(&self) -> DumpModel {
        DumpModel {
            options: self.options,
            config: self.config@,
            loaded_binary: optional_binary(self.loaded_binary),
            entry_point: self.entry_point,
            running: self.running,
            halted: self.halted,
            stop_reason: self.stop_reason@,
            cpu: self.cpu@,
            stats: self.stats@,
            memory: self.memory@,
        }
    }
}

/// The virtual machine.
#[derive(Debug)]
pub struct HecateVm {
    pub options: VmRuntimeOptions,
    pub config: SimConfig,
    pub machine: Machine,
    pub loaded_binary: Option<LoadedBinary>,
    pub entry_point: u32,
    pub halted: bool,
    pub running: bool,
    pub stop_reason: VmStopReason,
    pub breakpoints: HashSet<u32>,
}

/// What the virtual machine holds.
pub ghost struct VmModel {
    pub options: VmRuntimeOptions,
    pub config: ConfigModel,
    pub machine: MachineModel,
    pub loaded_binary: Option<BinaryModel>,
    pub entry_point: u32,
    pub halted: bool,
    pub running: bool,
    pub stop_reason: StopModel,
    pub breakpoints: Set<u32>,
}

impl View for HecateVm {
    type V = VmModel;

    open spec fn view(&self) -> VmModel {
        VmModel {
            options: self.options,
            config: self.config@,
            machine: self.machine@,
            loaded_binary: optional_binary(self.loaded_binary),
            entry_point: self.entry_point,
            halted: self.halted,
            running: self.running,
            stop_reason: self.stop_reason@,
            breakpoints: self.breakpoints@,
        }
    }
}

/// The smaller of two optional limits.
pub open spec fn tighter(a: Option<u64>, b: Option<u64>) -> Option<u64> {
    match (a, b) {
        (Some(x), Some(y)) => Some(
            if x < y {
                x
            } else {
                y
            },
        ),
        (Some(x), None) => Some(x),
        (None, other) => other,
    }
}

/// The sum, or the largest number if there is none so large.
pub open spec fn clamped_sum(a: u64, b: u64) -> u64 {
    if a + b > u64::MAX {
        u64::MAX
    } else {
        (a + b) as u64
    }
}

/// `n`, at least one.
pub open spec fn at_least_one(n: u64) -> u64 {
    if n == 0 {
        1
    } else {
        n
    }
}

/// Whether `result` answers a request to run: a machine that was halted refuses, and any other
/// shows itself as it is `after`.
pub open spec fn run_answer(
    result: Result<VmState, VmError>,
    was_halted: bool,
    after: VmModel,
) -> bool {
    match result {
        Ok(state) => !was_halted && state@ == after.state(),
        Err(error) => was_halted && error is Halted,
    }
}

/// Whether `result` answers a request to load `blob` under `name`.
pub open spec fn load_answer(
    result: Result<VmState, VmError>,
    name: Seq<char>,
    blob: Seq<u8>,
    after: VmModel,
) -> bool {
    match result {
        Ok(state) => elf::verdict(blob) == ElfVerdict::Accepted && state@ == after.state(),
        Err(VmError::Elf { label, error: ElfError::Refused(complaint) }) => {
            &&& elf::verdict(blob) == ElfVerdict::Refused
            &&& label@ == name
            &&& complaint@ == elf::elf_complaint(blob)
        },
        Err(VmError::Elf { label, error: ElfError::Unaddressable }) => {
            &&& elf::verdict(blob) == ElfVerdict::Unaddressable
            &&& label@ == name
        },
        Err(VmError::Halted) => false,
    }
}

/// Whether a run kept to the quota `cap`.
pub open spec fn kept_to(before: VmModel, after: VmModel, cap: u64) -> bool {
    machine::kept_to(before.machine, after.machine, cap)
}

/// Whether `count` steps counted what they should, as long as the counter does not come to its
/// end: of the instructions that were executed each counts once, and each system call among them
/// once more. No more were executed than asked for; and steps that are complete executed as many
/// as asked for, unless the quota of the machine came in their way.
pub open spec fn counted_steps(before: VmModel, after: VmModel, count: u64) -> bool {
    let calls = machine::calls_between(before.machine.stats, after.machine.stats);
    let executed = after.machine.stats.instret - before.machine.stats.instret - calls;
    !before.halted && before.machine.stats.instret + 2 * count <= u64::MAX ==> {
        &&& 0 <= calls <= executed <= count
        &&& (before.options.max_instructions matches Some(max) ==> before.machine.stats.instret + 2
            * count <= max) && after.stop_reason == StopModel::StepComplete ==> executed == count
    }
}

/// Whether the quota of the machine is reached, or the counter of instructions is full, or has
/// just wrapped around.
pub open spec fn at_limit(machine: VmModel) -> bool {
    ||| machine.options.max_instructions matches Some(max) && machine.machine.stats.instret >= max
    ||| machine.machine.stats.instret == u64::MAX
    ||| machine.machine.stats.instret == 0
}

/// Whether steps that ended with `QuotaReached` had that reason to end.
pub open spec fn quota_reached(before: VmModel, after: VmModel) -> bool {
    !before.halted && after.stop_reason == StopModel::QuotaReached ==> at_limit(after)
}

impl VmModel {
    /// Lines have a size, and the caches have the line size and the costs of the settings.
    pub open spec fn wf(self) -> bool {
        &&& self.options.cache_line_size > 0
        &&& self.machine.memory.caches == self.machine.memory.caches.retimed(
            self.options,
            self.config,
        )
    }

    /// The counters add up: accesses are fetches, loads and stores, the tables of system calls
    /// have as many hits and cycles as were counted and are about the same calls, and input and
    /// output cost what the bytes cost that were written.
    pub open spec fn adds_up(self) -> bool {
        &&& memory::accesses_add_up(self.machine.stats)
        &&& machine::adds_up(self.machine.stats)
        &&& machine::paired(self.machine.stats, self.config.io_cycles_per_byte)
    }

    /// A machine that is halted is not running, and one without a program is halted for that
    /// reason.
    pub open spec fn settled(self) -> bool {
        &&& self.halted ==> !self.running
        &&& self.loaded_binary is None ==> self.halted && self.stop_reason
            == StopModel::NoProgramLoaded
    }

    /// A machine without a program.
    pub open spec fn fresh(options: VmRuntimeOptions, config: ConfigModel) -> VmModel {
        VmModel {
            options,
            config,
            machine: MachineModel {
                cpu: CpuModel::start(0),
                memory: MemoryModel::fresh(options, config),
                stats: StatsModel::zero(),
                output: Seq::empty(),
            },
            loaded_binary: None,
            entry_point: 0,
            halted: true,
            running: false,
            stop_reason: StopModel::NoProgramLoaded,
            breakpoints: Set::empty(),
        }
    }

    /// What the machine shows of itself.
    pub open spec fn state(self) -> StateModel {
        StateModel {
            running: self.running,
            halted: self.halted,
            pc: self.machine.cpu.pc,
            entry_point: self.entry_point,
            loaded_binary_name: match self.loaded_binary {
                Some(binary) => Some(binary.name),
                None => None,
            },
            loaded_binary_hash: match self.loaded_binary {
                Some(binary) => Some(binary.sha256),
                None => None,
            },
            stop_reason: self.stop_reason,
            current_instruction: self.instruction(),
            registers: self.machine.cpu.x,
            floating_registers: self.machine.cpu.f,
            fcsr: self.machine.cpu.fcsr,
            reservation: self.machine.cpu.reservation,
            stats: self.machine.stats,
        }
    }

    /// The instruction at the program counter, as it is shown.
    pub open spec fn instruction(self) -> SnapshotModel {
        disasm::shown(
            disasm::encoded(self.machine.memory.bytes, self.machine.cpu.pc),
            self.machine.cpu.pc,
            true,
        )
    }

    /// After a run that ends at the latest when `local_quota` instructions are counted, or the
    /// quota of the machine; without either, at the largest number there is.
    pub open spec fn executed(self, local_quota: Option<u64>) -> VmModel {
        let cap = match tighter(self.options.max_instructions, local_quota) {
            Some(cap) => cap,
            None => u64::MAX,
        };
        let (machine, end) = self.machine.driven(self.config, cap, self.breakpoints);
        let ran = VmModel { machine, ..self };
        match end {
            RunEnd::Exited => VmModel {
                halted: true,
                running: false,
                stop_reason: StopModel::ProgramExited,
                ..ran
            },
            RunEnd::Breakpoint | RunEnd::Stopped(CpuStop::Ebreak) => VmModel {
                running: false,
                stop_reason: StopModel::Breakpoint { pc: machine.cpu.pc },
                ..ran
            },
            RunEnd::Stopped(CpuStop::QuotaExceeded) => VmModel {
                stop_reason: StopModel::QuotaReached,
                ..ran
            },
            RunEnd::Stopped(stop) => VmModel {
                halted: true,
                running: false,
                stop_reason: StopModel::CpuError { error: stop.text() },
                ..ran
            },
        }
    }

    /// What such a run costs.
    pub open spec fn executed_cost(self, local_quota: Option<u64>) -> nat {
        let cap = match tighter(self.options.max_instructions, local_quota) {
            Some(cap) => cap,
            None => u64::MAX,
        };
        self.machine.driven_cost(self.config, cap, self.breakpoints)
    }

    /// After a run of up to `count` instructions.
    pub open spec fn executed_for(self, count: u64) -> VmModel {
        self.executed(Some(clamped_sum(self.machine.stats.instret, count)))
    }

    /// What a run of up to `count` instructions costs.
    pub open spec fn executed_for_cost(self, count: u64) -> nat {
        self.executed_cost(Some(clamped_sum(self.machine.stats.instret, count)))
    }

    /// Whether the machine stands at a breakpoint.
    pub open spec fn at_breakpoint(self) -> bool {
        self.stop_reason is Breakpoint
    }

    /// After `count` runs of one instruction, or those up to a halt or a breakpoint.
    pub open spec fn repeated(self, count: nat) -> VmModel
        decreases count,
    {
        if count == 0 {
            VmModel { stop_reason: StopModel::StepComplete, ..self }
        } else {
            let next = self.executed_for(1);
            if next.halted || next.at_breakpoint() {
                next
            } else {
                next.repeated((count - 1) as nat)
            }
        }
    }

    /// What `count` runs of one instruction cost, or those up to a halt or a breakpoint.
    pub open spec fn repeated_cost(self, count: nat) -> nat
        decreases count,
    {
        if count == 0 {
            0
        } else {
            let next = self.executed_for(1);
            self.executed_for_cost(1) + (if next.halted || next.at_breakpoint() {
                0
            } else {
                next.repeated_cost((count - 1) as nat)
            })
        }
    }

    /// What `count` steps cost, at least one; a machine without a program spends nothing.
    pub open spec fn stepped_cost(self, count: u64) -> nat {
        if self.halted {
            0
        } else {
            VmModel { running: false, ..self }.repeated_cost(at_least_one(count) as nat)
        }
    }

    /// After `count` steps, at least one; a machine without a program stays as it is.
    pub open spec fn stepped(self, count: u64) -> VmModel {
        if self.halted {
            self
        } else {
            VmModel { running: false, ..self }.repeated(at_least_one(count) as nat)
        }
    }

    /// Where the instruction at the program counter leads.
    pub open spec fn flow(self) -> InstructionFlow {
        disasm::flow_of(
            disasm::encoded(self.machine.memory.bytes, self.machine.cpu.pc),
            self.machine.cpu.pc,
        )
    }

    /// After steps until execution comes to `return_pc`, stops, or does not get on.
    pub open spec fn stepped_to(self, return_pc: u32) -> VmModel
        decreases u64::MAX - self.machine.stats.instret,
    {
        let next = self.stepped(1);
        if self.halted {
            self
        } else if self.machine.cpu.pc == return_pc {
            VmModel { stop_reason: StopModel::StepOverComplete, ..self }
        } else if next.halted || next.at_breakpoint() {
            next
        } else if next.machine.cpu.pc == return_pc {
            VmModel { stop_reason: StopModel::StepOverComplete, ..next }
        } else if next.machine.stats.instret <= self.machine.stats.instret {
            VmModel { stop_reason: StopModel::QuotaReached, ..next }
        } else {
            next.stepped_to(return_pc)
        }
    }

    /// What steps cost until execution comes to `return_pc`, stops, or does not get on.
    pub open spec fn stepped_to_cost(self, return_pc: u32) -> nat
        decreases u64::MAX - self.machine.stats.instret,
    {
        let next = self.stepped(1);
        if self.halted || self.machine.cpu.pc == return_pc {
            0
        } else if next.halted || next.at_breakpoint() || next.machine.cpu.pc == return_pc
            || next.machine.stats.instret <= self.machine.stats.instret {
            self.stepped_cost(1)
        } else {
            self.stepped_cost(1) + next.stepped_to_cost(return_pc)
        }
    }

    /// What a step over the instruction at the program counter costs.
    pub open spec fn stepped_over_cost(self) -> nat {
        if self.halted {
            0
        } else {
            match self.flow() {
                InstructionFlow::Linear => self.stepped_cost(1),
                InstructionFlow::Call { return_pc } => self.stepped_cost(1) + self.stepped(
                    1,
                ).stepped_to_cost(return_pc),
            }
        }
    }

    /// After a step over the instruction at the program counter: a call runs until it returns.
    pub open spec fn stepped_over(self) -> VmModel {
        if self.halted {
            self
        } else {
            match self.flow() {
                InstructionFlow::Linear => self.stepped(1),
                InstructionFlow::Call { return_pc } => self.stepped(1).stepped_to(return_pc),
            }
        }
    }

    /// After steps until execution comes to `return_pc` with the stack no deeper than `sp`,
    /// stops, or does not get on.
    pub open spec fn stepped_up(self, return_pc: u32, sp: u32) -> VmModel
        decreases u64::MAX - self.machine.stats.instret,
    {
        let next = self.stepped(1);
        if next.halted || next.at_breakpoint() {
            next
        } else if next.machine.cpu.pc == return_pc && next.machine.cpu.x[2] >= sp {
            VmModel { stop_reason: StopModel::StepOutComplete, ..next }
        } else if next.machine.stats.instret <= self.machine.stats.instret {
            VmModel { stop_reason: StopModel::QuotaReached, ..next }
        } else {
            next.stepped_up(return_pc, sp)
        }
    }

    /// What steps cost until execution comes to `return_pc` with the stack no deeper than `sp`,
    /// stops, or does not get on.
    pub open spec fn stepped_up_cost(self, return_pc: u32, sp: u32) -> nat
        decreases u64::MAX - self.machine.stats.instret,
    {
        let next = self.stepped(1);
        if next.halted || next.at_breakpoint() || (next.machine.cpu.pc == return_pc
            && next.machine.cpu.x[2] >= sp) || next.machine.stats.instret
            <= self.machine.stats.instret {
            self.stepped_cost(1)
        } else {
            self.stepped_cost(1) + next.stepped_up_cost(return_pc, sp)
        }
    }

    /// What a step out of the current function costs.
    pub open spec fn stepped_out_cost(self) -> nat {
        if self.halted {
            0
        } else if self.machine.cpu.x[1] == 0 {
            self.stepped_cost(1)
        } else {
            self.stepped_up_cost(self.machine.cpu.x[1], self.machine.cpu.x[2])
        }
    }

    /// After a step out of the current function; without a return address, after one step.
    pub open spec fn stepped_out(self) -> VmModel {
        if self.halted {
            self
        } else if self.machine.cpu.x[1] == 0 {
            self.stepped(1)
        } else {
            self.stepped_up(self.machine.cpu.x[1], self.machine.cpu.x[2])
        }
    }

    /// After the request to run.
    pub open spec fn started(self) -> VmModel {
        if self.halted {
            self
        } else {
            VmModel { running: true, stop_reason: StopModel::Running, ..self }
        }
    }

    /// After the request to pause.
    pub open spec fn paused(self) -> VmModel {
        VmModel {
            running: false,
            stop_reason: if self.halted {
                self.stop_reason
            } else {
                StopModel::Paused
            },
            ..self
        }
    }

    /// After a running machine ran for up to `quantum` instructions, at least one.
    pub open spec fn ticked(self, quantum: u64) -> VmModel {
        if !self.running || self.halted {
            VmModel { running: false, ..self }
        } else {
            let next = self.executed_for(at_least_one(quantum));
            if next.running && !next.halted {
                VmModel { stop_reason: StopModel::Running, ..next }
            } else {
                next
            }
        }
    }

    /// What it costs when a running machine runs for up to `quantum` instructions.
    pub open spec fn ticked_cost(self, quantum: u64) -> nat {
        if !self.running || self.halted {
            0
        } else {
            self.executed_for_cost(at_least_one(quantum))
        }
    }

    /// With the counters at zero and the caches empty.
    pub open spec fn cleared(self) -> VmModel {
        VmModel {
            machine: MachineModel {
                memory: MemoryModel {
                    caches: CachesModel::fresh(self.options, self.config),
                    ..self.machine.memory
                },
                stats: StatsModel::zero(),
                ..self.machine
            },
            ..self
        }
    }

    /// With the program `blob` in memory, ready to start.
    pub open spec fn ready(self, blob: Seq<u8>) -> VmModel {
        VmModel {
            machine: MachineModel {
                cpu: CpuModel::start(elf::entry(blob)),
                memory: elf::loaded(self.machine.memory, blob, elf::segment_count(blob)),
                ..self.machine
            },
            entry_point: elf::entry(blob),
            halted: false,
            running: false,
            stop_reason: StopModel::ProgramLoaded,
            ..self
        }
    }

    /// After a request to load `blob` under `name`. A file that is no program leaves empty
    /// memory, and the rest as it was.
    pub open spec fn after_load(self, name: Seq<char>, blob: Seq<u8>) -> VmModel {
        let cleared = self.cleared();
        let emptied = VmModel {
            machine: MachineModel {
                memory: MemoryModel {
                    bytes: Map::empty(),
                    bounds: None,
                    ..cleared.machine.memory
                },
                ..cleared.machine
            },
            ..cleared
        };
        if elf::verdict(blob) == ElfVerdict::Accepted {
            VmModel {
                loaded_binary: Some(
                    BinaryModel { name, sha256: hex_of(sha256(blob)), bytes: blob },
                ),
                ..emptied.ready(blob)
            }
        } else {
            emptied
        }
    }

    /// After the memory in use was treated as `policy` says.
    pub open spec fn wiped(self, policy: ResetMemoryPolicy, seed: u64) -> VmModel {
        VmModel {
            machine: MachineModel {
                memory: match policy {
                    ResetMemoryPolicy::Ignore => self.machine.memory,
                    ResetMemoryPolicy::Zero => self.machine.memory.zero(),
                    ResetMemoryPolicy::Randomize => self.machine.memory.randomize(seed),
                },
                ..self.machine
            },
            ..self
        }
    }

    /// After a reset. A program that cannot be loaded again leaves the registers, the entry
    /// point and the reason to stop as they were.
    pub open spec fn after_reset(self, policy: ResetMemoryPolicy, seed: u64) -> VmModel {
        VmModel { running: false, ..self.cleared() }.wiped(policy, seed).restarted()
    }

    /// After the program was loaded again over the memory as it is, if there is one.
    pub open spec fn restarted(self) -> VmModel {
        match self.loaded_binary {
            Some(binary) => if elf::verdict(binary.bytes) == ElfVerdict::Accepted {
                self.ready(binary.bytes)
            } else {
                self
            },
            None => VmModel {
                machine: MachineModel { cpu: CpuModel::start(0), ..self.machine },
                entry_point: 0,
                halted: true,
                stop_reason: StopModel::NoProgramLoaded,
                ..self
            },
        }
    }

    /// With this memory.
    pub open spec fn with_memory(self, memory: MemoryModel) -> VmModel {
        VmModel { machine: MachineModel { memory, ..self.machine }, ..self }
    }

    /// What is saved.
    pub open spec fn dump(self) -> DumpModel {
        DumpModel {
            options: self.options,
            config: self.config,
            loaded_binary: self.loaded_binary,
            entry_point: self.entry_point,
            running: self.running,
            halted: self.halted,
            stop_reason: self.stop_reason,
            cpu: self.machine.cpu,
            stats: self.machine.stats,
            memory: self.machine.memory,
        }
    }

    /// After `dump` was restored. Breakpoints, and written bytes that nobody has taken yet, are
    /// no part of a dump.
    pub open spec fn restored(self, dump: DumpModel) -> VmModel {
        VmModel {
            options: dump.options,
            config: dump.config,
            machine: MachineModel {
                cpu: dump.cpu,
                memory: MemoryModel {
                    caches: dump.memory.caches.retimed(dump.options, dump.config),
                    ..dump.memory
                },
                stats: dump.stats,
                output: self.machine.output,
            },
            loaded_binary: dump.loaded_binary,
            entry_point: dump.entry_point,
            halted: dump.halted,
            running: dump.running,
            stop_reason: dump.stop_reason,
            breakpoints: self.breakpoints,
        }
    }
}

/// `n`, at least one.
fn one_at_least(n: u64) -> (m: u64)
    ensures
        m == at_least_one(n),
{
    if n == 0 {
        1
    } else {
        n
    }
}

impl HecateVm {
    /// A machine without a program.
    pub fn new(options: VmRuntimeOptions, config: SimConfig) -> (vm: Self)
        requires
            options.cache_line_size > 0,
        ensures
            vm@ == VmModel::fresh(options, config@),
            vm@.wf(),
            vm@.adds_up(),
            vm@.settled(),
            machine::in_order(vm@.machine.stats),
    {
        proof {
            machine::law_fresh_counters_in_order(config.io_cycles_per_byte);
        }
        let memory = HecateMemory::new(options, &config);
        HecateVm {
            options,
            config,
            machine: Machine {
                cpu: CpuSnapshot::new(0),
                memory,
                stats: RunStats::default(),
                output: Vec::new(),
            },
            loaded_binary: None,
            entry_point: 0,
            halted: true,
            running: false,
            stop_reason: VmStopReason::NoProgramLoaded,
            breakpoints: HashSet::new(),
        }
    }

    /// Whether the caches fit the settings; only a restored dump can leave them without a line
    /// size.
    pub fn is_consistent(&self) -> (consistent: bool)
        ensures
            consistent == self@.wf(),
    {
        let caches = &self.machine.memory.caches;
        self.options.cache_line_size > 0 && caches.line_size == self.options.cache_line_size
            && caches.l1_latency == self.config.l1_latency && caches.l2_latency
            == self.config.l2_latency && caches.l3_latency == self.config.l3_latency
            && caches.memory_latency == self.config.memory_latency && caches.store_latency
            == self.config.store_latency
    }

    pub fn options(&self) -> (options: VmRuntimeOptions)
        ensures
            options == self.options,
    {
        self.options
    }

    pub fn config(&self) -> (config: &SimConfig)
        ensures
            config@ == self@.config,
    {
        &self.config
    }

    pub fn is_running(&self) -> (running: bool)
        ensures
            running == self.running,
    {
        self.running
    }

    pub fn is_halted(&self) -> (halted: bool)
        ensures
            halted == self.halted,
    {
        self.halted
    }

    pub fn entry_point(&self) -> (entry_point: u32)
        ensures
            entry_point == self.entry_point,
    {
        self.entry_point
    }

    pub fn loaded_binary(&self) -> (binary: Option<&LoadedBinary>)
        ensures
            match binary {
                Some(binary) => self@.loaded_binary == Some(binary@),
                None => self@.loaded_binary is None,
            },
    {
        self.loaded_binary.as_ref()
    }

    /// Makes `breakpoints` the addresses at which a system call does not return to the program.
    pub fn set_breakpoints(&mut self, breakpoints: &[u32])
        ensures
            final(self)@ == (VmModel { breakpoints: breakpoints@.to_set(), ..old(self)@ }),
    {
        let mut set: HashSet<u32> = HashSet::new();
        let mut next: usize = 0;
        assert(breakpoints@.take(0).to_set() == Set::<u32>::empty());
        while next < breakpoints.len()
            invariant
                next <= breakpoints@.len(),
                set@ == breakpoints@.take(next as int).to_set(),
            decreases breakpoints@.len() - next,
        {
            proof {
                crate::cache::lemma_set_of_prefix(breakpoints@, next as int);
            }
            set.insert(breakpoints[next]);
            next = next + 1;
        }
        assert(breakpoints@.take(next as int) == breakpoints@);
        self.breakpoints = set;
    }

    /// Takes the bytes that programs have written out.
    pub fn take_output(&mut self) -> (output: Vec<u8>)
        ensures
            output@ == old(self)@.machine.output,
            final(self)@ == (VmModel {
                machine: MachineModel { output: Seq::empty(), ..old(self)@.machine },
                ..old(self)@
            }),
    {
        let mut output: Vec<u8> = Vec::new();
        std::mem::swap(&mut output, &mut self.machine.output);
        output
    }

    fn clear_stats(&mut self)
        ensures
            final(self)@ == (VmModel {
                machine: MachineModel { stats: StatsModel::zero(), ..old(self)@.machine },
                ..old(self)@
            }),
    {
        self.machine.stats = RunStats::default();
    }

    fn reset_caches(&mut self)
        requires
            old(self).options.cache_line_size > 0,
        ensures
            final(self)@ == (VmModel {
                machine: MachineModel {
                    memory: MemoryModel {
                        caches: CachesModel::fresh(old(self)@.options, old(self)@.config),
                        ..old(self)@.machine.memory
                    },
                    ..old(self)@.machine
                },
                ..old(self)@
            }),
    {
        self.machine.memory.reset_caches(self.options, &self.config);
    }

    /// Puts a program into memory and makes the machine ready to start it.
    fn install(&mut self, name: &String, blob: &[u8]) -> (result: Result<(), VmError>)
        ensures
            match result {
                Ok(()) => {
                    &&& elf::verdict(blob@) == ElfVerdict::Accepted
                    &&& final(self)@ == old(self)@.ready(blob@)
                },
                Err(VmError::Elf { label, error: ElfError::Refused(complaint) }) => {
                    &&& elf::verdict(blob@) == ElfVerdict::Refused
                    &&& label@ == name@
                    &&& complaint@ == elf::elf_complaint(blob@)
                    &&& final(self)@ == old(self)@
                },
                Err(VmError::Elf { label, error: ElfError::Unaddressable }) => {
                    &&& elf::verdict(blob@) == ElfVerdict::Unaddressable
                    &&& label@ == name@
                    &&& final(self)@ == old(self)@
                },
                Err(VmError::Halted) => false,
            },
            final(self).machine.memory.caches@ == old(self).machine.memory.caches@,
    {
        proof {
            laws::lemma_loading_keeps_caches(
                self.machine.memory@,
                blob@,
                elf::segment_count(blob@),
            );
        }
        match elf::load_elf_bytes(blob, &mut self.machine.memory) {
            Ok(entry) => {
                self.entry_point = entry;
                self.machine.cpu = CpuSnapshot::new(entry);
                self.halted = false;
                self.running = false;
                self.stop_reason = VmStopReason::ProgramLoaded;
                Ok(())
            },
            Err(error) => Err(VmError::Elf { label: name.clone(), error }),
        }
    }

    /// Loads the program `blob` under `name`.
    pub fn load(&mut self, name: String, blob: &[u8]) -> (result: Result<VmState, VmError>)
        requires
            old(self)@.wf(),
        ensures
            final(self)@ == old(self)@.after_load(name@, blob@),
            final(self)@.wf(),
            final(self)@.adds_up(),
            machine::in_order(final(self)@.machine.stats),
            old(self)@.settled() ==> final(self)@.settled(),
            load_answer(result, name@, blob@, final(self)@),
    {
        proof {
            machine::law_fresh_counters_in_order(self.config.io_cycles_per_byte);
        }
        self.clear_stats();
        self.reset_caches();
        self.machine.memory.clear_bytes();
        match self.install(&name, blob) {
            Ok(()) => {
                self.loaded_binary = Some(
                    LoadedBinary { name, sha256: hash_bytes(blob), bytes: copy_bytes(blob) },
                );
                Ok(self.state())
            },
            Err(error) => Err(error),
        }
    }

    /// What the machine shows of itself.
    pub fn state(&self) -> (state: VmState)
        ensures
            state@ == self@.state(),
    {
        VmState {
            running: self.running,
            halted: self.halted,
            pc: self.machine.cpu.pc,
            entry_point: self.entry_point,
            loaded_binary_name: match &self.loaded_binary {
                Some(binary) => Some(binary.name.clone()),
                None => None,
            },
            loaded_binary_hash: match &self.loaded_binary {
                Some(binary) => Some(binary.sha256.clone()),
                None => None,
            },
            stop_reason: self.stop_reason.clone(),
            current_instruction: self.decode_current_instruction().snapshot,
            registers: self.machine.cpu.x,
            floating_registers: self.machine.cpu.f,
            fcsr: self.machine.cpu.fcsr,
            reservation: self.machine.cpu.reservation,
            stats: self.machine.stats.clone(),
        }
    }

    fn decode_current_instruction(&self) -> (decoded: DecodedInstruction)
        ensures
            decoded.snapshot@ == self@.instruction(),
            decoded.flow == self@.flow(),
    {
        disasm::decode_instruction(&self.machine.memory, self.machine.cpu.pc)
    }
}

/// Whether steps that led from `before` to `after` kept what every step keeps, at this cost.
#[verifier::opaque]
spec fn carried(before: VmModel, after: VmModel, cost: nat) -> bool {
    &&& before.adds_up() ==> after.adds_up()
    &&& before.settled() ==> after.settled()
    &&& after.options == before.options
    &&& before.options.max_instructions matches Some(max) ==> kept_to(before, after, max)
    &&& machine::charged(before.machine.stats, after.machine.stats, cost)
}

proof fn lemma_carried(before: VmModel, after: VmModel, cost: nat)
    requires
        before.adds_up() ==> after.adds_up(),
        before.settled() ==> after.settled(),
        after.options == before.options,
        before.options.max_instructions matches Some(max) ==> kept_to(before, after, max),
        machine::charged(before.machine.stats, after.machine.stats, cost),
    ensures
        carried(before, after, cost),
{
    reveal(carried);
}

proof fn lemma_carried_further(
    before: VmModel,
    between: VmModel,
    after: VmModel,
    first: nat,
    second: nat,
)
    requires
        carried(before, between, first),
        carried(between, after, second),
    ensures
        carried(before, after, first + second),
{
    reveal(carried);
    if let Some(max) = before.options.max_instructions {
        machine::lemma_kept_further(before.machine, between.machine, after.machine, max);
    }
    machine::lemma_charged_together(
        before.machine.stats,
        between.machine.stats,
        after.machine.stats,
        first,
        second,
    );
}

/// Another reason for which a machine that is not halted stopped changes nothing of that.
proof fn lemma_carried_reason(before: VmModel, after: VmModel, cost: nat)
    requires
        carried(before, after, cost),
        !after.halted,
    ensures
        forall|reason: StopModel| #[trigger]
            carried(before, VmModel { stop_reason: reason, ..after }, cost),
{
    reveal(carried);
}

proof fn lemma_carried_out(before: VmModel, after: VmModel, cost: nat)
    requires
        carried(before, after, cost),
    ensures
        before.adds_up() ==> after.adds_up(),
        before.settled() ==> after.settled(),
        after.options == before.options,
        before.options.max_instructions matches Some(max) ==> kept_to(before, after, max),
        machine::charged(before.machine.stats, after.machine.stats, cost),
{
    reveal(carried);
}

impl HecateVm {
    /// The limit on a run: the tighter one of the quota of the machine and that of the run.
    pub fn effective_quota(&self, local_quota: Option<u64>) -> (quota: Option<u64>)
        ensures
            quota == tighter(self.options.max_instructions, local_quota),
    {
        match (self.options.max_instructions, local_quota) {
            (Some(a), Some(b)) => Some(
                if a < b {
                    a
                } else {
                    b
                },
            ),
            (Some(a), None) => Some(a),
            (None, Some(b)) => Some(b),
            (None, None) => None,
        }
    }

    /// Runs the program until it stops, at the latest when `local_quota` instructions are
    /// counted, or the quota of the machine.
    fn execute_until(&mut self, local_quota: Option<u64>)
        requires
            old(self)@.wf(),
        ensures
            final(self)@ == old(self)@.executed(local_quota),
            final(self)@.wf(),
            old(self)@.adds_up() ==> final(self)@.adds_up(),
            machine::charged(
                old(self)@.machine.stats,
                final(self)@.machine.stats,
                old(self)@.executed_cost(local_quota),
            ),
            old(self)@.settled() && !old(self).halted ==> final(self)@.settled(),
            tighter(old(self).options.max_instructions, local_quota) matches Some(cap)
                ==> kept_to(old(self)@, final(self)@, cap),
            tighter(old(self).options.max_instructions, local_quota) matches Some(cap) ==> (cap
                < u64::MAX && !final(self).halted && !final(self)@.at_breakpoint()
                ==> final(self).machine.stats.instret >= cap),
            tighter(old(self).options.max_instructions, local_quota) matches Some(cap) ==> (
            !final(self).halted && !final(self)@.at_breakpoint() ==> final(self).machine.stats.instret
                >= cap || final(self).machine.stats.instret == 0),
            !old(self).halted && final(self).halted ==> final(self)@.stop_reason
                != StopModel::QuotaReached,
    {
        let cap: u64 = match self.effective_quota(local_quota) {
            Some(cap) => cap,
            None => u64::MAX,
        };
        let end = self.machine.drive(&self.config, cap, &self.breakpoints);
        match end {
            RunEnd::Exited => {
                self.halted = true;
                self.running = false;
                self.stop_reason = VmStopReason::ProgramExited;
            },
            RunEnd::Breakpoint | RunEnd::Stopped(CpuStop::Ebreak) => {
                self.running = false;
                self.stop_reason = VmStopReason::Breakpoint { pc: self.machine.cpu.pc };
            },
            RunEnd::Stopped(CpuStop::QuotaExceeded) => {
                self.stop_reason = VmStopReason::QuotaReached;
            },
            RunEnd::Stopped(stop) => {
                self.halted = true;
                self.running = false;
                self.stop_reason = VmStopReason::CpuError { error: stop.name() };
            },
        }
    }

    /// Runs up to `count` instructions.
    fn execute_for(&mut self, count: u64)
        requires
            old(self)@.wf(),
        ensures
            final(self)@ == old(self)@.executed_for(count),
            final(self)@.wf(),
            old(self)@.adds_up() ==> final(self)@.adds_up(),
            machine::charged(
                old(self)@.machine.stats,
                final(self)@.machine.stats,
                old(self)@.executed_for_cost(count),
            ),
            old(self)@.settled() && !old(self).halted ==> final(self)@.settled(),
            kept_to(
                old(self)@,
                final(self)@,
                clamped_sum(old(self).machine.stats.instret, count),
            ),
            old(self).options.max_instructions matches Some(max) ==> kept_to(
                old(self)@,
                final(self)@,
                max,
            ),
            old(self).machine.stats.instret + count < u64::MAX && (
            old(self).options.max_instructions matches Some(max) ==> old(self).machine.stats.instret
                + count <= max) && !final(self).halted && !final(self)@.at_breakpoint()
                ==> final(self).machine.stats.instret >= old(self).machine.stats.instret + count,
            !old(self).halted && final(self).halted ==> final(self)@.stop_reason
                != StopModel::QuotaReached,
            !final(self).halted && !final(self)@.at_breakpoint() ==> final(self).machine.stats.instret
                == 0 || final(self).machine.stats.instret >= clamped_sum(
                old(self).machine.stats.instret,
                count,
            ) || (old(self).options.max_instructions matches Some(max)
                && final(self).machine.stats.instret >= max),
    {
        let target: u64 = self.machine.stats.instret.saturating_add(count);
        self.execute_until(Some(target));
    }

    fn at_breakpoint(&self) -> (stands: bool)
        ensures
            stands == self@.at_breakpoint(),
    {
        match self.stop_reason {
            VmStopReason::Breakpoint { .. } => true,
            _ => false,
        }
    }

    /// Executes one instruction.
    pub fn step(&mut self) -> (result: Result<VmState, VmError>)
        requires
            old(self)@.wf(),
        ensures
            final(self)@ == old(self)@.stepped(1),
            final(self)@.wf(),
            old(self)@.adds_up() ==> final(self)@.adds_up(),
            machine::charged(
                old(self)@.machine.stats,
                final(self)@.machine.stats,
                old(self)@.stepped_cost(1),
            ),
            old(self)@.settled() ==> final(self)@.settled(),
            old(self).options.max_instructions matches Some(max) ==> kept_to(
                old(self)@,
                final(self)@,
                max,
            ),
            final(self).machine.stats.instret <= old(self).machine.stats.instret + 2,
            old(self).machine.stats.instret < u64::MAX - 1 ==> old(self).machine.stats.instret
                <= final(self).machine.stats.instret,
            counted_steps(old(self)@, final(self)@, 1),
            !old(self).halted ==> final(self)@.stop_reason != StopModel::QuotaReached,
            !old(self).halted && !final(self).halted && !final(self)@.at_breakpoint()
                && final(self).machine.stats.instret <= old(self).machine.stats.instret
                ==> at_limit(final(self)@),
            final(self).options == old(self).options,
            run_answer(result, old(self).halted, final(self)@),
    {
        self.step_count(1)
    }

    /// Executes `count` instructions, at least one, or those up to a halt or a breakpoint.
    pub fn step_count(&mut self, count: u64) -> (result: Result<VmState, VmError>)
        requires
            old(self)@.wf(),
        ensures
            final(self)@ == old(self)@.stepped(count),
            final(self)@.wf(),
            old(self)@.adds_up() ==> final(self)@.adds_up(),
            machine::charged(
                old(self)@.machine.stats,
                final(self)@.machine.stats,
                old(self)@.stepped_cost(count),
            ),
            old(self)@.settled() ==> final(self)@.settled(),
            old(self).options.max_instructions matches Some(max) ==> kept_to(
                old(self)@,
                final(self)@,
                max,
            ),
            final(self).machine.stats.instret <= old(self).machine.stats.instret + 2 * at_least_one(
                count,
            ),
            old(self).machine.stats.instret + 2 * at_least_one(count) <= u64::MAX
                ==> old(self).machine.stats.instret <= final(self).machine.stats.instret,
            counted_steps(old(self)@, final(self)@, at_least_one(count)),
            !old(self).halted ==> final(self)@.stop_reason != StopModel::QuotaReached,
            count <= 1 && !old(self).halted && !final(self).halted && !final(self)@.at_breakpoint()
                && final(self).machine.stats.instret <= old(self).machine.stats.instret
                ==> at_limit(final(self)@),
            final(self).options == old(self).options,
            run_answer(result, old(self).halted, final(self)@),
    {
        let ghost mut spent: nat = 0;
        proof {
            machine::lemma_nothing_charged(self.machine.stats@);
        }
        if self.halted {
            return Err(VmError::Halted);
        }
        self.running = false;
        let total: u64 = one_at_least(count);
        let mut done: u64 = 0;
        let ghost fits = self.machine.stats.instret + 2 * total <= u64::MAX;
        let ghost room = fits && (self.options.max_instructions matches Some(max)
            ==> self.machine.stats.instret + 2 * total <= max);
        while done < total
            invariant
                done <= total,
                self@.wf(),
                !old(self).halted,
                total == at_least_one(count),
                old(self)@.adds_up() ==> self@.adds_up(),
                self@.repeated((total - done) as nat) == old(self)@.stepped(count),
                !self.halted,
                old(self)@.settled() ==> self@.settled(),
                self.options == old(self).options,
                self.options.max_instructions matches Some(max) ==> kept_to(
                    old(self)@,
                    self@,
                    max,
                ),
                self.machine.stats.instret <= old(self).machine.stats.instret + 2 * done,
                fits ==> {
                    let calls = machine::calls_between(old(self)@.machine.stats, self@.machine.stats);
                    let executed = self.machine.stats.instret - old(self).machine.stats.instret
                        - calls;
                    &&& 0 <= calls <= executed <= done
                    &&& room ==> executed == done
                },
                fits == (old(self).machine.stats.instret + 2 * total <= u64::MAX),
                room == (fits && (old(self).options.max_instructions matches Some(max)
                    ==> old(self).machine.stats.instret + 2 * total <= max)),
                done == 0 ==> self@.machine == old(self)@.machine,
                total == 1 && done == 1 && self.machine.stats.instret
                    <= old(self).machine.stats.instret ==> at_limit(self@),
                old(self).machine.stats.instret + 2 * total <= u64::MAX
                    ==> old(self).machine.stats.instret <= self.machine.stats.instret,
                machine::charged(old(self)@.machine.stats, self@.machine.stats, spent),
                spent + self@.repeated_cost((total - done) as nat) == old(self)@.stepped_cost(
                    count,
                ),
            decreases total - done,
        {
            let ghost start = self@;
            self.execute_for(1);
            proof {
                machine::lemma_charged_together(
                    old(self)@.machine.stats,
                    start.machine.stats,
                    self@.machine.stats,
                    spent,
                    start.executed_for_cost(1),
                );
                spent = spent + start.executed_for_cost(1);
                if let Some(max) = self.options.max_instructions {
                    machine::lemma_kept_further(
                        old(self)@.machine,
                        start.machine,
                        self@.machine,
                        max,
                    );
                }
            }
            if self.halted || self.at_breakpoint() {
                return Ok(self.state());
            }
            done = done + 1;
        }
        self.stop_reason = VmStopReason::StepComplete;
        Ok(self.state())
    }

    /// Executes until the machine comes to `return_pc`, stops, or does not get on.
    fn step_to(&mut self, return_pc: u32)
        requires
            old(self)@.wf(),
        ensures
            final(self)@ == old(self)@.stepped_to(return_pc),
            final(self)@.wf(),
            carried(old(self)@, final(self)@, old(self)@.stepped_to_cost(return_pc)),
            old(self)@.stop_reason != StopModel::QuotaReached ==> quota_reached(
                old(self)@,
                final(self)@,
            ),
            old(self).halted ==> final(self)@ == old(self)@,
    {
        let ghost mut spent: nat = 0;
        proof {
            machine::lemma_nothing_charged(self.machine.stats@);
            lemma_carried(self@, self@, 0);
        }
        while !self.halted && self.machine.cpu.pc != return_pc
            invariant
                self@.wf(),
                self@.stepped_to(return_pc) == old(self)@.stepped_to(return_pc),
                self.halted ==> self@ == old(self)@,
                carried(old(self)@, self@, spent),
                spent + self@.stepped_to_cost(return_pc) == old(self)@.stepped_to_cost(return_pc),
            decreases u64::MAX - self.machine.stats.instret,
        {
            let before: u64 = self.machine.stats.instret;
            let ghost start = self@;
            let _ = self.step();
            proof {
                lemma_carried(start, self@, start.stepped_cost(1));
                lemma_carried_further(
                    old(self)@,
                    start,
                    self@,
                    spent,
                    start.stepped_cost(1),
                );
                spent = spent + start.stepped_cost(1);
                if !self.halted {
                    lemma_carried_reason(old(self)@, self@, spent);
                }
            }
            if self.halted || self.at_breakpoint() {
                return;
            }
            if self.machine.cpu.pc == return_pc {
                self.stop_reason = VmStopReason::StepOverComplete;
                return;
            }
            if self.machine.stats.instret <= before {
                self.stop_reason = VmStopReason::QuotaReached;
                return;
            }
        }
        if !self.halted {
            proof {
                lemma_carried_reason(old(self)@, self@, spent);
            }
            self.stop_reason = VmStopReason::StepOverComplete;
        }
    }

    /// Executes the instruction at the program counter; a call runs until it returns. Where the
    /// quota of the machine is reached before, or the counter of instructions wraps around, no
    /// step gets on any more, and this ends with `QuotaReached`.
    pub fn step_over(&mut self) -> (result: Result<VmState, VmError>)
        requires
            old(self)@.wf(),
        ensures
            final(self)@ == old(self)@.stepped_over(),
            final(self)@.wf(),
            old(self)@.adds_up() ==> final(self)@.adds_up(),
            machine::charged(
                old(self)@.machine.stats,
                final(self)@.machine.stats,
                old(self)@.stepped_over_cost(),
            ),
            old(self)@.settled() ==> final(self)@.settled(),
            old(self).options.max_instructions matches Some(max) ==> kept_to(
                old(self)@,
                final(self)@,
                max,
            ),
            quota_reached(old(self)@, final(self)@),
            run_answer(result, old(self).halted, final(self)@),
    {
        proof {
            machine::lemma_nothing_charged(self.machine.stats@);
        }
        if self.halted {
            return Err(VmError::Halted);
        }
        let return_pc: u32 = match self.decode_current_instruction().flow {
            InstructionFlow::Linear => return self.step(),
            InstructionFlow::Call { return_pc } => return_pc,
        };
        let _ = self.step();
        let ghost called = self@;
        self.step_to(return_pc);
        proof {
            let first = old(self)@.stepped_cost(1);
            let rest = called.stepped_to_cost(return_pc);
            lemma_carried(old(self)@, called, first);
            lemma_carried_further(old(self)@, called, self@, first, rest);
            lemma_carried_out(old(self)@, self@, first + rest);
        }
        Ok(self.state())
    }

    /// Executes until the current function returns; without a return address, one instruction.
    /// Where the quota of the machine is reached before, or the counter of instructions wraps
    /// around, no step gets on any more, and this ends with `QuotaReached`.
    pub fn step_out(&mut self) -> (result: Result<VmState, VmError>)
        requires
            old(self)@.wf(),
        ensures
            final(self)@ == old(self)@.stepped_out(),
            final(self)@.wf(),
            old(self)@.adds_up() ==> final(self)@.adds_up(),
            machine::charged(
                old(self)@.machine.stats,
                final(self)@.machine.stats,
                old(self)@.stepped_out_cost(),
            ),
            old(self)@.settled() ==> final(self)@.settled(),
            old(self).options.max_instructions matches Some(max) ==> kept_to(
                old(self)@,
                final(self)@,
                max,
            ),
            quota_reached(old(self)@, final(self)@),
            run_answer(result, old(self).halted, final(self)@),
    {
        let ghost mut spent: nat = 0;
        proof {
            machine::lemma_nothing_charged(self.machine.stats@);
        }
        if self.halted {
            return Err(VmError::Halted);
        }
        let initial_sp: u32 = self.machine.cpu.x[2];
        let return_pc: u32 = self.machine.cpu.x[1];
        if return_pc == 0 {
            return self.step();
        }
        proof {
            lemma_carried(self@, self@, 0);
        }
        loop
            invariant
                self@.wf(),
                !self.halted,
                !old(self).halted,
                self@.stepped_up(return_pc, initial_sp) == old(self)@.stepped_out(),
                carried(old(self)@, self@, spent),
                spent + self@.stepped_up_cost(return_pc, initial_sp)
                    == old(self)@.stepped_out_cost(),
            decreases u64::MAX - self.machine.stats.instret,
        {
            let before: u64 = self.machine.stats.instret;
            let ghost start = self@;
            let _ = self.step();
            proof {
                lemma_carried(start, self@, start.stepped_cost(1));
                lemma_carried_further(
                    old(self)@,
                    start,
                    self@,
                    spent,
                    start.stepped_cost(1),
                );
                spent = spent + start.stepped_cost(1);
                if !self.halted {
                    lemma_carried_reason(old(self)@, self@, spent);
                }
                lemma_carried_out(old(self)@, self@, spent);
            }
            if self.halted || self.at_breakpoint() {
                return Ok(self.state());
            }
            if self.machine.cpu.pc == return_pc && self.machine.cpu.x[2] >= initial_sp {
                self.stop_reason = VmStopReason::StepOutComplete;
                return Ok(self.state());
            }
            if self.machine.stats.instret <= before {
                self.stop_reason = VmStopReason::QuotaReached;
                return Ok(self.state());
            }
        }
    }

    /// Marks the machine as running; `tick_running` then moves it.
    pub fn run(&mut self) -> (result: Result<(), VmError>)
        ensures
            final(self)@ == old(self)@.started(),
            old(self)@.settled() ==> final(self)@.settled(),
            match result {
                Ok(()) => !old(self).halted,
                Err(error) => old(self).halted && error is Halted,
            },
    {
        if self.halted {
            return Err(VmError::Halted);
        }
        self.running = true;
        self.stop_reason = VmStopReason::Running;
        Ok(())
    }

    /// Marks the machine as not running.
    pub fn pause(&mut self) -> (state: VmState)
        ensures
            final(self)@ == old(self)@.paused(),
            old(self)@.settled() ==> final(self)@.settled(),
            state@ == final(self)@.state(),
    {
        self.running = false;
        if !self.halted {
            self.stop_reason = VmStopReason::Paused;
        }
        self.state()
    }

    /// Moves a running machine on by up to `quantum` instructions, at least one.
    pub fn tick_running(&mut self, quantum: u64)
        requires
            old(self)@.wf(),
        ensures
            final(self)@ == old(self)@.ticked(quantum),
            final(self)@.wf(),
            old(self)@.adds_up() ==> final(self)@.adds_up(),
            machine::charged(
                old(self)@.machine.stats,
                final(self)@.machine.stats,
                old(self)@.ticked_cost(quantum),
            ),
            old(self)@.settled() ==> final(self)@.settled(),
            kept_to(
                old(self)@,
                final(self)@,
                clamped_sum(old(self).machine.stats.instret, at_least_one(quantum)),
            ),
            old(self).options.max_instructions matches Some(max) ==> kept_to(
                old(self)@,
                final(self)@,
                max,
            ),
            old(self).running && final(self).running && old(self).machine.stats.instret
                + at_least_one(quantum) < u64::MAX && (old(self).options.max_instructions matches Some(
                max,
            ) ==> old(self).machine.stats.instret + at_least_one(quantum) <= max)
                ==> final(self).machine.stats.instret >= old(self).machine.stats.instret
                + at_least_one(quantum),
    {
        proof {
            machine::lemma_nothing_charged(self.machine.stats@);
        }
        if !self.running || self.halted {
            self.running = false;
            return;
        }
        self.execute_for(one_at_least(quantum));
        if self.running && !self.halted {
            self.stop_reason = VmStopReason::Running;
        }
    }

    /// Reads `len` bytes at `addr`, as far as they are in use.
    pub fn read(&self, addr: u32, len: u32) -> (result: Result<
        MemoryReadResult,
        MemoryAccessError,
    >)
        ensures
            match result {
                Ok(read) => self@.machine.memory.read_external(addr, len) == Ok::<
                    ReadModel,
                    AccessErrorModel,
                >(read@),
                Err(error) => self@.machine.memory.read_external(addr, len) == Err::<
                    ReadModel,
                    AccessErrorModel,
                >(error@),
            },
    {
        self.machine.memory.read_external(addr, len)
    }

    /// Writes `data` at `addr`, if all of it is in use.
    pub fn write(&mut self, addr: u32, data: &[u8]) -> (result: Result<(), MemoryAccessError>)
        ensures
            final(self)@ == old(self)@.with_memory(
                old(self)@.machine.memory.write_external(addr, data@),
            ),
            old(self)@.wf() ==> final(self)@.wf(),
            old(self)@.settled() ==> final(self)@.settled(),
            match result {
                Ok(()) => old(self)@.machine.memory.write_refusal(
                    addr,
                    (data@.len() % 0x1_0000_0000) as u32,
                ) is None,
                Err(error) => old(self)@.machine.memory.write_refusal(
                    addr,
                    (data@.len() % 0x1_0000_0000) as u32,
                ) == Some(error@),
            },
    {
        self.machine.memory.write_external(addr, data)
    }

    /// Brings the machine back to the start of its program, with the memory in use treated as
    /// `policy` says; `seed` is where random bytes start from.
    pub fn reset_from(&mut self, policy: ResetMemoryPolicy, seed: u64) -> (result: Result<
        VmState,
        VmError,
    >)
        requires
            old(self)@.wf(),
        ensures
            final(self)@ == old(self)@.after_reset(policy, seed),
            final(self)@.wf(),
            final(self)@.adds_up(),
            machine::in_order(final(self)@.machine.stats),
            old(self)@.settled() ==> final(self)@.settled(),
            match old(self)@.loaded_binary {
                Some(binary) => load_answer(result, binary.name, binary.bytes, final(self)@),
                None => result matches Ok(state) && state@ == final(self)@.state(),
            },
    {
        proof {
            machine::law_fresh_counters_in_order(self.config.io_cycles_per_byte);
        }
        self.clear_stats();
        self.reset_caches();
        self.running = false;
        match policy {
            ResetMemoryPolicy::Ignore => {},
            ResetMemoryPolicy::Zero => self.machine.memory.zero_current_bounds(),
            ResetMemoryPolicy::Randomize => self.machine.memory.randomize_from(seed),
        }
        self.restart()
    }

    /// Brings the machine back to the start of its program, with the memory in use treated as
    /// `policy` says; random bytes start from the time, `nanos` nanoseconds after the start of
    /// 1970, where `None` stands for a clock before that.
    pub fn reset(&mut self, policy: ResetMemoryPolicy, nanos: Option<u128>) -> (result: Result<
        VmState,
        VmError,
    >)
        requires
            old(self)@.wf(),
        ensures
            final(self)@ == old(self)@.after_reset(policy, memory::seed_at(nanos)),
            final(self)@.wf(),
            final(self)@.adds_up(),
            machine::in_order(final(self)@.machine.stats),
            old(self)@.settled() ==> final(self)@.settled(),
            match old(self)@.loaded_binary {
                Some(binary) => load_answer(result, binary.name, binary.bytes, final(self)@),
                None => result matches Ok(state) && state@ == final(self)@.state(),
            },
    {
        self.reset_from(policy, memory::seed_from(nanos))
    }

    /// Loads the program again, or leaves the machine without one.
    fn restart(&mut self) -> (result: Result<VmState, VmError>)
        requires
            old(self)@.wf(),
        ensures
            final(self)@ == old(self)@.restarted(),
            final(self)@.wf(),
            match old(self)@.loaded_binary {
                Some(binary) => load_answer(result, binary.name, binary.bytes, final(self)@),
                None => result matches Ok(state) && state@ == final(self)@.state(),
            },
    {
        match clone_binary(&self.loaded_binary) {
            Some(binary) => match self.install(&binary.name, binary.bytes.as_slice()) {
                Ok(()) => Ok(self.state()),
                Err(error) => Err(error),
            },
            None => {
                self.entry_point = 0;
                self.machine.cpu = CpuSnapshot::new(0);
                self.halted = true;
                self.stop_reason = VmStopReason::NoProgramLoaded;
                Ok(self.state())
            },
        }
    }

    /// A copy of the machine to save.
    pub fn dump(&self) -> (dump: VmDump)
        ensures
            dump@ == self@.dump(),
    {
        VmDump {
            options: self.options,
            config: self.config.clone(),
            loaded_binary: clone_binary(&self.loaded_binary),
            entry_point: self.entry_point,
            running: self.running,
            halted: self.halted,
            stop_reason: self.stop_reason.clone(),
            cpu: self.machine.cpu,
            stats: self.machine.stats.clone(),
            memory: self.machine.memory.dump(),
        }
    }

    /// Makes the machine what was saved.
    pub fn restore(&mut self, dump: VmDump) -> (result: Result<VmState, VmError>)
        ensures
            final(self)@ == old(self)@.restored(dump@),
            dump.options.cache_line_size > 0 ==> final(self)@.wf(),
            result matches Ok(state) && state@ == final(self)@.state(),
    {
        self.options = dump.options;
        self.loaded_binary = dump.loaded_binary;
        self.entry_point = dump.entry_point;
        self.running = dump.running;
        self.halted = dump.halted;
        self.stop_reason = dump.stop_reason;
        self.machine.stats = dump.stats;
        self.machine.cpu = dump.cpu;
        self.machine.memory = HecateMemory::from_dump(self.options, dump.memory, &dump.config);
        self.config = dump.config;
        Ok(self.state())
    }
}

/// Two digits stand for each byte.
pub proof fn law_hex_length(bytes: Seq<u8>)
    ensures
        hex_of(bytes).len() == 2 * bytes.len(),
    decreases bytes.len(),
{
    if bytes.len() > 0 {
        law_hex_length(bytes.drop_last());
        crate::text::law_two_digits(bytes.last());
    }
}

/// The two digits of each byte stand where the byte stands.
pub proof fn law_hex_digits(bytes: Seq<u8>, i: int)
    requires
        0 <= i < bytes.len(),
    ensures
        hex_of(bytes).subrange(2 * i, 2 * i + 2) == crate::text::hex_padded(bytes[i] as nat, 2),
    decreases bytes.len(),
{
    let front = bytes.drop_last();
    law_hex_length(bytes);
    law_hex_length(front);
    crate::text::law_two_digits(bytes.last());
    if i < front.len() {
        law_hex_digits(front, i);
        assert(hex_of(bytes).subrange(2 * i, 2 * i + 2) =~= hex_of(front).subrange(
            2 * i,
            2 * i + 2,
        ));
    } else {
        assert(hex_of(bytes).subrange(2 * i, 2 * i + 2) =~= disasm::byte_text(bytes.last()));
    }
}

/// A run keeps to both limits that it has: the tighter one is as low as the lower of them, and
/// without one of them it is the other.
pub proof fn law_tighter(a: Option<u64>, b: Option<u64>)
    ensures
        tighter(a, b) is None <==> a is None && b is None,
        tighter(a, b) == a || tighter(a, b) == b,
        tighter(a, b) matches Some(cap) ==> (a matches Some(x) ==> cap <= x) && (b matches Some(y)
            ==> cap <= y),
        tighter(a, b) == tighter(b, a),
{
}

/// The words of complaints: each names the file it is about and says what is wrong with it.
pub proof fn law_complaints(label: String, complaint: String)
    ensures
        VmError::Halted.text() == "Program is halted or not loaded"@,
        (VmError::Elf { label, error: ElfError::Refused(complaint) }).text()
            == "ELF parse failed for "@ + label@ + ": "@ + complaint@,
        (VmError::Elf { label, error: ElfError::Unaddressable }).text() == "ELF parse failed for "@
            + label@ + ": "@ + "reference to data beyond the 32-bit range"@,
        forall|blob: Seq<u8>|
            elf::verdict(blob) == ElfVerdict::Refused ==> #[trigger] not_a_program_text(
                label@,
                blob,
            ) == "ELF parse failed for "@ + label@ + ": "@ + elf::elf_complaint(blob),
        forall|blob: Seq<u8>|
            elf::verdict(blob) != ElfVerdict::Refused ==> #[trigger] not_a_program_text(
                label@,
                blob,
            ) == "ELF parse failed for "@ + label@ + ": "@
                + "reference to data beyond the 32-bit range"@,
{
}

} // verus!
