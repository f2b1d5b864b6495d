//! The machine behind the debugging interface, the commands it takes, and the replies it gives.

pub mod examples;
pub mod routes;

use crate::config::{ConfigModel, SimConfig, VmRuntimeOptions};
use crate::control::{
    self, error_response, parse_string_value, parse_u32_value, parse_u64_value, response,
    ControlRequest, ControlResponse,
};
use crate::cpu::{CpuModel, CpuSnapshot, CpuStop};
use crate::disasm::{self, InstructionSnapshot};
use crate::elf::{self, ElfError, ElfVerdict};
use crate::machine::{self, Machine, MachineModel, RunEnd};
use crate::memory::{self, HecateMemory, MemoryModel};
use crate::stats::{RunStats, StatsModel};
use crate::text;
use crate::vm;
use std::collections::HashSet;
use vstd::prelude::*;

verus! {

broadcast use vstd::std_specs::hash::group_hash_axioms;

/// What the machine shows of itself.
#[derive(Debug)]
pub struct DebugSnapshot {
    pub running: bool,
    pub halted: bool,
    pub pc: u32,
    pub pc_hex: String,
    pub entry: u32,
    pub entry_hex: String,
    pub loaded_path: Option<String>,
    pub last_stop_reason: String,
    pub current_instruction: String,
    pub current_instruction_hex: Option<String>,
    pub current_instruction_size: Option<u32>,
    pub current_instruction_bytes: Option<String>,
    pub registers: Vec<u32>,
    pub stats: RunStats,
}

/// A command to the machine. Commands that load a program come with the bytes of its file, or
/// without, if the file cannot be read.
#[derive(Debug)]
pub enum VmCommand {
    Initialize,
    Launch { path: String },
    Continue,
    Pause,
    Next { count: u64 },
    Restart,
    ReadMemory { addr: u32, len: u32 },
    State,
    Shutdown,
}

/// What comes of a command.
#[derive(Debug)]
pub enum VmReply {
    Ack,
    Loaded { entry: u32, entry_hex: String },
    State { state: DebugSnapshot },
    Memory { addr: u32, len: u32, bytes: Vec<u8> },
    Error { message: String },
}

/// The machine behind the debugging interface.
#[derive(Debug)]
pub struct DebugMachine {
    pub options: VmRuntimeOptions,
    pub config: SimConfig,
    pub machine: Machine,
    pub loaded_path: Option<String>,
    pub entry: u32,
    pub halted: bool,
    pub running: bool,
    pub last_stop_reason: String,
}

/// What the machine holds.
pub ghost struct DebugModel {
    pub options: VmRuntimeOptions,
    pub config: ConfigModel,
    pub machine: MachineModel,
    pub loaded_path: Option<Seq<char>>,
    pub entry: u32,
    pub halted: bool,
    pub running: bool,
    pub last_stop_reason: Seq<char>,
}

impl View for DebugMachine {
    type V = DebugModel;

    open spec fn view(&self) -> DebugModel {
        DebugModel {
            options: self.options,
            config: self.config@,
            machine: self.machine@,
            loaded_path: disasm::optional(self.loaded_path),
            entry: self.entry,
            halted: self.halted,
            running: self.running,
            last_stop_reason: self.last_stop_reason@,
        }
    }
}

/// Whether a run of a machine that was not halted kept to the quota `cap`, and ended there if it
/// did not halt the machine.
pub open spec fn kept_to(before: DebugModel, after: DebugModel, cap: u64) -> bool {
    &&& !before.halted ==> machine::kept_to(before.machine, after.machine, cap)
    &&& !before.halted && !after.halted && cap < u64::MAX ==> after.machine.stats.instret >= cap
    &&& before.halted ==> after.machine == before.machine
}

/// The number in hexadecimal with eight digits, behind its prefix.
pub open spec fn hex8(n: u32) -> Seq<char> {
    "0x"@ + text::hex_padded(n as nat, 8)
}

/// The number in hexadecimal with eight digits, behind its prefix.
pub fn to_hex8(n: u32) -> (text: String)
    ensures
        text@ == hex8(n),
{
    "0x".to_owned().concat(text::to_hex_padded(n, 8).as_str())
}

impl DebugModel {
    /// Lines have a size, and the caches have the line size and the costs of the settings.
    pub open spec fn wf(self) -> bool {
        &&& self.options.cache_line_size > 0
        &&& self.machine.memory.caches == self.machine.memory.caches.retimed(
            self.options,
            self.config,
        )
    }

    /// A machine without a program.
    pub open spec fn fresh(options: VmRuntimeOptions, config: ConfigModel) -> DebugModel {
        DebugModel {
            options,
            config,
            machine: MachineModel {
                cpu: CpuModel::start(0),
                memory: MemoryModel::fresh(options, config),
                stats: StatsModel::zero(),
                output: Seq::empty(),
            },
            loaded_path: None,
            entry: 0,
            halted: true,
            running: false,
            last_stop_reason: "No program loaded"@,
        }
    }

    /// With the counters at zero, and nothing in memory and caches.
    pub open spec fn cleared(self) -> DebugModel {
        DebugModel {
            machine: MachineModel {
                memory: MemoryModel::fresh(self.options, self.config),
                stats: StatsModel::zero(),
                ..self.machine
            },
            ..self
        }
    }

    /// After a request to load the program `blob` from `path`. A file that is no program leaves
    /// empty memory, and the rest as it was.
    pub open spec fn loaded(self, path: Seq<char>, blob: Seq<u8>) -> DebugModel {
        let cleared = self.cleared();
        if elf::verdict(blob) == ElfVerdict::Accepted {
            DebugModel {
                machine: MachineModel {
                    cpu: CpuModel::start(elf::entry(blob)),
                    memory: elf::loaded(cleared.machine.memory, blob, elf::segment_count(blob)),
                    ..cleared.machine
                },
                loaded_path: Some(path),
                entry: elf::entry(blob),
                halted: false,
                running: false,
                last_stop_reason: "Program loaded"@,
                ..cleared
            }
        } else {
            cleared
        }
    }

    /// After a request to load the program in the file at `path`, of which `content` could be
    /// read.
    pub open spec fn launched(self, path: Seq<char>, content: Option<Seq<u8>>) -> DebugModel {
        match content {
            Some(blob) => self.loaded(path, blob),
            None => self.cleared(),
        }
    }

    /// After a run that ends at the latest when `local_quota` instructions are counted, or the
    /// quota of the machine; without either, at the largest number there is.
    pub open spec fn ran(self, local_quota: Option<u64>) -> DebugModel {
        let cap = match vm::tighter(self.options.max_instructions, local_quota) {
            Some(cap) => cap,
            None => u64::MAX,
        };
        let (machine, end) = self.machine.driven(self.config, cap, Set::empty());
        let ran = DebugModel { machine, ..self };
        if self.halted {
            self
        } else {
            match end {
                RunEnd::Stopped(stop) if stop == CpuStop::QuotaExceeded || machine.stats.instret
                    >= cap => DebugModel { last_stop_reason: "QuotaReached"@, ..ran },
                RunEnd::Stopped(stop) => DebugModel {
                    halted: true,
                    running: false,
                    last_stop_reason: stop.text(),
                    ..ran
                },
                _ => DebugModel {
                    halted: true,
                    running: false,
                    last_stop_reason: "Program exited"@,
                    ..ran
                },
            }
        }
    }

    /// After a run of up to `count` instructions, at least one.
    pub open spec fn ran_for(self, count: u64) -> DebugModel {
        self.ran(Some(vm::clamped_sum(self.machine.stats.instret, vm::at_least_one(count))))
    }

    /// After `count` steps, at least one; a machine without a program stays as it is.
    pub open spec fn stepped(self, count: u64) -> DebugModel {
        let next = DebugModel { running: false, ..self }.ran_for(count);
        if self.halted {
            self
        } else if next.halted {
            next
        } else {
            DebugModel { last_stop_reason: "Step complete"@, ..next }
        }
    }

    /// After a running machine ran for up to `quantum` instructions, at least one.
    pub open spec fn continued(self, quantum: u64) -> DebugModel {
        let next = self.ran_for(quantum);
        if self.halted {
            DebugModel { running: false, ..self }
        } else if !next.halted && next.running {
            DebugModel { last_stop_reason: "Running"@, ..next }
        } else {
            next
        }
    }

    /// After the request to go on.
    pub open spec fn started(self) -> DebugModel {
        if self.halted {
            self
        } else {
            DebugModel { running: true, last_stop_reason: "Running"@, ..self }
        }
    }

    /// After the request to pause.
    pub open spec fn paused(self) -> DebugModel {
        DebugModel { running: false, last_stop_reason: "Paused by client"@, ..self }
    }

    /// Whether `snapshot` shows this machine; one compressed call is only named `with_jal`.
    pub open spec fn shown_by(self, snapshot: DebugSnapshot, with_jal: bool) -> bool {
        let pc = self.machine.cpu.pc;
        let instruction = disasm::shown(
            disasm::encoded(self.machine.memory.bytes, pc),
            pc,
            with_jal,
        );
        &&& snapshot.running == self.running
        &&& snapshot.halted == self.halted
        &&& snapshot.pc == pc
        &&& snapshot.pc_hex@ == hex8(pc)
        &&& snapshot.entry == self.entry
        &&& snapshot.entry_hex@ == hex8(self.entry)
        &&& disasm::optional(snapshot.loaded_path) == self.loaded_path
        &&& snapshot.last_stop_reason@ == self.last_stop_reason
        &&& snapshot.current_instruction@ == instruction.text
        &&& disasm::optional(snapshot.current_instruction_hex) == instruction.hex
        &&& snapshot.current_instruction_size == instruction.size
        &&& disasm::optional(snapshot.current_instruction_bytes) == instruction.bytes
        &&& snapshot.registers@ == self.machine.cpu.x
        &&& snapshot.stats@ == self.machine.stats
    }
}

fn clone_text(text: &Option<String>) -> (copy: Option<String>)
    ensures
        disasm::optional(copy) == disasm::optional(*text),
{
    match text {
        Some(text) => Some(text.clone()),
        None => None,
    }
}

/// The text of a compressed instruction, with calls unnamed.
pub fn decode_rvc_mnemonic(inst: u16) -> (text: String)
    ensures
        text@ == disasm::rvc_text(inst, false),
{
    if inst % 4 == 0b01 && inst / 0x2000 == 0b001 {
        "c.unknown".to_owned()
    } else {
        disasm::decode_rvc_mnemonic(inst)
    }
}

impl DebugMachine {
    /// A machine without a program.
    pub fn new(options: VmRuntimeOptions, config: SimConfig) -> (machine: Self)
        requires
            options.cache_line_size > 0,
        ensures
            machine@ == DebugModel::fresh(options, config@),
            machine@.wf(),
    {
        let memory = HecateMemory::new(options, &config);
        DebugMachine {
            options,
            config,
            machine: Machine {
                cpu: CpuSnapshot::new(0),
                memory,
                stats: RunStats::default(),
                output: Vec::new(),
            },
            loaded_path: None,
            entry: 0,
            halted: true,
            running: false,
            last_stop_reason: "No program loaded".to_owned(),
        }
    }

    /// A machine with the program in the file at `initial_path`, of which `content` could be
    /// read; without a path, one without a program.
    pub fn launch(
        initial_path: Option<String>,
        content: Option<&Vec<u8>>,
        options: VmRuntimeOptions,
        config: SimConfig,
    ) -> (result: Result<Self, String>)
        requires
            options.cache_line_size > 0,
        ensures
            match (result, initial_path) {
                (Ok(machine), Some(path)) => {
                    &&& loadable(viewed(content))
                    &&& machine@ == DebugModel::fresh(options, config@).launched(
                        path@,
                        viewed(content),
                    )
                    &&& machine@.wf()
                },
                (Ok(machine), None) => machine@ == DebugModel::fresh(options, config@)
                    && machine@.wf(),
                (Err(complaint), Some(path)) => !loadable(viewed(content)) && complaint@
                    == unloaded_text(path@),
                (Err(_), None) => false,
            },
    {
        let mut machine = DebugMachine::new(options, config);
        match initial_path {
            Some(path) => match machine.load_program(path, content) {
                Ok(()) => Ok(machine),
                Err(complaint) => Err(complaint),
            },
            None => Ok(machine),
        }
    }

    /// Puts the counters to zero and empties memory and caches.
    fn clear(&mut self)
        requires
            old(self)@.wf(),
        ensures
            final(self)@ == old(self)@.cleared(),
            final(self)@.wf(),
    {
        self.machine.stats = RunStats::default();
        self.machine.memory = HecateMemory::new(self.options, &self.config);
    }

    /// Loads the program `blob` from `path`.
    pub fn load_bytes(&mut self, path: String, blob: &[u8]) -> (result: Result<(), ElfError>)
        requires
            old(self)@.wf(),
        ensures
            final(self)@ == old(self)@.loaded(path@, blob@),
            final(self)@.wf(),
            match result {
                Ok(()) => elf::verdict(blob@) == ElfVerdict::Accepted,
                Err(ElfError::Refused(complaint)) => elf::verdict(blob@) == ElfVerdict::Refused
                    && complaint@ == elf::elf_complaint(blob@),
                Err(ElfError::Unaddressable) => elf::verdict(blob@) == ElfVerdict::Unaddressable,
            },
    {
        self.clear();
        proof {
            crate::laws::lemma_loading_keeps_caches(
                self.machine.memory@,
                blob@,
                elf::segment_count(blob@),
            );
        }
        match elf::load_elf_bytes(blob, &mut self.machine.memory) {
            Ok(entry) => {
                self.entry = entry;
                self.machine.cpu = CpuSnapshot::new(entry);
                self.loaded_path = Some(path);
                self.halted = false;
                self.running = false;
                self.last_stop_reason = "Program loaded".to_owned();
                Ok(())
            },
            Err(error) => Err(error),
        }
    }

    /// Loads the program in the file at `path`, of which `content` could be read.
    pub fn load_program(&mut self, path: String, content: Option<&Vec<u8>>) -> (result: Result<
        (),
        String,
    >)
        requires
            old(self)@.wf(),
        ensures
            final(self)@ == old(self)@.launched(path@, viewed(content)),
            final(self)@.wf(),
            match result {
                Ok(()) => loadable(viewed(content)),
                Err(complaint) => !loadable(viewed(content)) && complaint@ == unloaded_text(path@),
            },
    {
        let complaint = "Failed to load program: ".to_owned().concat(path.as_str());
        match content {
            Some(blob) => match self.load_bytes(path, blob.as_slice()) {
                Ok(()) => Ok(()),
                Err(_) => Err(complaint),
            },
            None => {
                self.clear();
                Err(complaint)
            },
        }
    }

    /// Loads the program again that was loaded last; its file now has `content`.
    pub fn reset_to_beginning(&mut self, content: Option<&Vec<u8>>) -> (result: Result<(), String>)
        requires
            old(self)@.wf(),
        ensures
            final(self)@.wf(),
            match old(self)@.loaded_path {
                Some(path) => {
                    &&& final(self)@ == old(self)@.launched(path, viewed(content))
                    &&& match result {
                        Ok(()) => loadable(viewed(content)),
                        Err(complaint) => !loadable(viewed(content)) && complaint@ == unloaded_text(
                            path,
                        ),
                    }
                },
                None => {
                    &&& final(self)@ == old(self)@
                    &&& result matches Err(complaint) && complaint@ == nothing_loaded_text()
                },
            },
    {
        match clone_text(&self.loaded_path) {
            Some(path) => self.load_program(path, content),
            None => Err("No loaded program to reset".to_owned()),
        }
    }

    /// The limit on a run: the tighter one of the quota of the machine and that of the run.
    pub fn effective_quota(&self, local_quota: Option<u64>) -> (quota: Option<u64>)
        ensures
            quota == vm::tighter(self.options.max_instructions, local_quota),
    {
        match (self.options.max_instructions, local_quota) {
            (Some(a), Some(b)) => Some(
                if a < b {
                    a
                } else {
                    b
                },
            ),
            (Some(a), None) => Some(a),
            (None, Some(b)) => Some(b),
            (None, None) => None,
        }
    }

    /// Runs the program until it stops, at the latest when `local_quota` instructions are
    /// counted, or the quota of the machine.
    pub fn run_until(&mut self, local_quota: Option<u64>)
        requires
            old(self)@.wf(),
        ensures
            final(self)@ == old(self)@.ran(local_quota),
            final(self)@.wf(),
            !old(self).halted && !final(self).halted ==> final(self).last_stop_reason@
                == "QuotaReached"@,
            vm::tighter(old(self).options.max_instructions, local_quota) matches Some(cap)
                ==> kept_to(old(self)@, final(self)@, cap),
    {
        if self.halted {
            return;
        }
        let cap: u64 = match self.effective_quota(local_quota) {
            Some(cap) => cap,
            None => u64::MAX,
        };
        let no_breakpoints: HashSet<u32> = HashSet::new();
        let end = self.machine.drive(&self.config, cap, &no_breakpoints);
        match end {
            RunEnd::Stopped(stop) => {
                if stop == CpuStop::QuotaExceeded || self.machine.stats.instret >= cap {
                    self.last_stop_reason = "QuotaReached".to_owned();
                } else {
                    self.halted = true;
                    self.running = false;
                    self.last_stop_reason = stop.name();
                }
            },
            _ => {
                self.halted = true;
                self.running = false;
                self.last_stop_reason = "Program exited".to_owned();
            },
        }
    }

    /// Runs up to `count` instructions, at least one.
    fn run_for(&mut self, count: u64)
        requires
            old(self)@.wf(),
        ensures
            final(self)@ == old(self)@.ran_for(count),
            final(self)@.wf(),
            vm::tighter(
                old(self).options.max_instructions,
                Some(vm::clamped_sum(old(self).machine.stats.instret, vm::at_least_one(count))),
            ) matches Some(cap) ==> kept_to(old(self)@, final(self)@, cap),
    {
        let steps: u64 = if count == 0 {
            1
        } else {
            count
        };
        let target: u64 = self.machine.stats.instret.saturating_add(steps);
        self.run_until(Some(target));
    }

    /// Executes `count` instructions, at least one.
    pub fn step(&mut self, count: u64) -> (result: Result<(), String>)
        requires
            old(self)@.wf(),
        ensures
            final(self)@ == old(self)@.stepped(count),
            final(self)@.wf(),
            vm::tighter(
                old(self).options.max_instructions,
                Some(vm::clamped_sum(old(self).machine.stats.instret, vm::at_least_one(count))),
            ) matches Some(cap) ==> kept_to(old(self)@, final(self)@, cap),
            match result {
                Ok(()) => !old(self).halted,
                Err(complaint) => old(self).halted && complaint@ == control::halted_text(),
            },
    {
        if self.halted {
            return Err("Program is halted or not loaded".to_owned());
        }
        self.running = false;
        self.run_for(count);
        if !self.halted {
            self.last_stop_reason = "Step complete".to_owned();
        }
        Ok(())
    }

    /// Moves a running machine on by up to `quantum` instructions, at least one.
    pub fn continue_run_quantum(&mut self, quantum: u64)
        requires
            old(self)@.wf(),
        ensures
            final(self)@ == old(self)@.continued(quantum),
            final(self)@.wf(),
            vm::tighter(
                old(self).options.max_instructions,
                Some(vm::clamped_sum(old(self).machine.stats.instret, vm::at_least_one(quantum))),
            ) matches Some(cap) ==> kept_to(old(self)@, final(self)@, cap),
    {
        if self.halted {
            self.running = false;
            return;
        }
        self.run_for(quantum);
        if !self.halted && self.running {
            self.last_stop_reason = "Running".to_owned();
        }
    }

    /// Moves a running machine on, between two looks at the commands that have come in; says
    /// whether it ran, or a command is to be waited for.
    pub fn advance(&mut self) -> (ran: bool)
        requires
            old(self)@.wf(),
        ensures
            ran == (old(self).running && !old(self).halted),
            final(self)@ == (if ran {
                old(self)@.continued(5_000)
            } else {
                old(self)@
            }),
            final(self)@.wf(),
    {
        if self.wants_to_run() {
            self.continue_run_quantum(5_000);
            true
        } else {
            false
        }
    }

    /// Whether the machine is to be moved on before the next command is waited for.
    pub fn wants_to_run(&self) -> (wants: bool)
        ensures
            wants == (self.running && !self.halted),
    {
        self.running && !self.halted
    }

    /// `len` bytes from `addr` on; those that were never written read as zero.
    pub fn read_memory(&self, addr: u32, len: u32) -> (bytes: Vec<u8>)
        ensures
            bytes@ == memory::bytes_at(self.machine.memory.bytes@, addr, len as nat),
    {
        self.machine.memory.read_program_bytes(addr, len)
    }

    /// What the machine shows of itself; one compressed call is only named `with_jal`.
    pub fn snapshot_with(&self, with_jal: bool) -> (snapshot: DebugSnapshot)
        ensures
            self@.shown_by(snapshot, with_jal),
    {
        let InstructionSnapshot { text, hex, size, bytes } = self.current_instruction(with_jal);
        DebugSnapshot {
            running: self.running,
            halted: self.halted,
            pc: self.machine.cpu.pc,
            pc_hex: to_hex8(self.machine.cpu.pc),
            entry: self.entry,
            entry_hex: to_hex8(self.entry),
            loaded_path: clone_text(&self.loaded_path),
            last_stop_reason: self.last_stop_reason.clone(),
            current_instruction: text,
            current_instruction_hex: hex,
            current_instruction_size: size,
            current_instruction_bytes: bytes,
            registers: self.registers(),
            stats: self.machine.stats.clone(),
        }
    }

    /// What the machine shows of itself.
    pub fn snapshot(&self) -> (snapshot: DebugSnapshot)
        ensures
            self@.shown_by(snapshot, false),
    {
        self.snapshot_with(false)
    }

    fn registers(&self) -> (registers: Vec<u32>)
        ensures
            registers@ == self.machine.cpu.x@,
    {
        let mut registers: Vec<u32> = Vec::new();
        let mut next: usize = 0;
        while next < 32
            invariant
                next <= 32,
                registers@ == self.machine.cpu.x@.take(next as int),
            decreases 32 - next,
        {
            registers.push(self.machine.cpu.x[next]);
            next = next + 1;
        }
        assert(registers@ == self.machine.cpu.x@);
        registers
    }

    /// The instruction at the program counter, as it is shown.
    pub fn current_instruction(&self, with_jal: bool) -> (shown: InstructionSnapshot)
        ensures
            shown@ == disasm::shown(
                disasm::encoded(self.machine.memory.bytes@, self.machine.cpu.pc),
                self.machine.cpu.pc,
                with_jal,
            ),
    {
        disasm::decode_at(&self.machine.memory, self.machine.cpu.pc, with_jal).snapshot
    }

    /// Takes the bytes that programs have written out.
    pub fn take_output(&mut self) -> (output: Vec<u8>)
        ensures
            output@ == old(self)@.machine.output,
            final(self)@ == (DebugModel {
                machine: MachineModel { output: Seq::empty(), ..old(self)@.machine },
                ..old(self)@
            }),
    {
        let mut output: Vec<u8> = Vec::new();
        std::mem::swap(&mut output, &mut self.machine.output);
        output
    }
}

/// The view of optional bytes.
pub open spec fn viewed(content: Option<&Vec<u8>>) -> Option<Seq<u8>> {
    match content {
        Some(bytes) => Some(bytes@),
        None => None,
    }
}

/// Whether a file could be read, and is a program.
pub open spec fn loadable(content: Option<Seq<u8>>) -> bool {
    content matches Some(blob) && elf::verdict(blob) == ElfVerdict::Accepted
}

/// The text about a file that could not be loaded.
pub open spec fn unloaded_text(path: Seq<char>) -> Seq<char> {
    "Failed to load program: "@ + path
}

/// The text about a reset without a program.
pub open spec fn nothing_loaded_text() -> Seq<char> {
    "No loaded program to reset"@
}

/// Whether `reply` shows the machine.
pub open spec fn reply_shows(reply: VmReply, after: DebugModel) -> bool {
    reply matches VmReply::State { state } && after.shown_by(state, false)
}

/// Whether `reply` is the error `text`.
pub open spec fn reply_fails(reply: VmReply, text: Seq<char>) -> bool {
    reply matches VmReply::Error { message } && message@ == text
}

/// What a command does and replies; commands that load a program find its file with `content`.
pub open spec fn handled(
    before: DebugModel,
    after: DebugModel,
    command: VmCommand,
    content: Option<Seq<u8>>,
    reply: VmReply,
) -> bool {
    match command {
        VmCommand::Initialize | VmCommand::Shutdown => after == before && reply is Ack,
        VmCommand::Launch { path } => {
            &&& after == before.launched(path@, content)
            &&& if loadable(content) {
                reply matches VmReply::Loaded { entry, entry_hex } && entry == after.entry
                    && entry_hex@ == hex8(entry)
            } else {
                reply_fails(reply, unloaded_text(path@))
            }
        },
        VmCommand::Continue => {
            &&& after == before.started()
            &&& if before.halted {
                reply_fails(reply, control::halted_text())
            } else {
                reply is Ack
            }
        },
        VmCommand::Pause => after == before.paused() && reply_shows(reply, after),
        VmCommand::Next { count } => {
            &&& after == before.stepped(count)
            &&& if before.halted {
                reply_fails(reply, control::halted_text())
            } else {
                reply_shows(reply, after)
            }
        },
        VmCommand::Restart => match before.loaded_path {
            None => after == before && reply_fails(reply, nothing_loaded_text()),
            Some(path) => {
                &&& after == before.launched(path, content)
                &&& if loadable(content) {
                    reply_shows(reply, after)
                } else {
                    reply_fails(reply, unloaded_text(path))
                }
            },
        },
        VmCommand::ReadMemory { addr, len } => {
            &&& after == before
            &&& reply matches VmReply::Memory { addr: at, len: n, bytes } && at == addr && n == len
                && bytes@ == memory::bytes_at(before.machine.memory.bytes, addr, len as nat)
        },
        VmCommand::State => after == before && reply_shows(reply, after),
    }
}

/// Carries out a command; says besides whether it was the last one.
#[verifier::rlimit(40)]
pub fn handle_command(
    vm: &mut DebugMachine,
    command: VmCommand,
    content: Option<&Vec<u8>>,
) -> (result: (VmReply, bool))
    requires
        old(vm)@.wf(),
    ensures
        handled(old(vm)@, final(vm)@, command, viewed(content), result.0),
        result.1 == (command is Shutdown),
        final(vm)@.wf(),
{
    let reply = match command {
        VmCommand::Initialize => VmReply::Ack,
        VmCommand::Launch { path } => match vm.load_program(path, content) {
            Ok(()) => VmReply::Loaded { entry: vm.entry, entry_hex: to_hex8(vm.entry) },
            Err(message) => VmReply::Error { message },
        },
        VmCommand::Continue => {
            if vm.halted {
                VmReply::Error { message: "Program is halted or not loaded".to_owned() }
            } else {
                vm.running = true;
                vm.last_stop_reason = "Running".to_owned();
                VmReply::Ack
            }
        },
        VmCommand::Pause => {
            vm.running = false;
            vm.last_stop_reason = "Paused by client".to_owned();
            VmReply::State { state: vm.snapshot() }
        },
        VmCommand::Next { count } => match vm.step(count) {
            Ok(()) => VmReply::State { state: vm.snapshot() },
            Err(message) => VmReply::Error { message },
        },
        VmCommand::Restart => match vm.reset_to_beginning(content) {
            Ok(()) => VmReply::State { state: vm.snapshot() },
            Err(message) => VmReply::Error { message },
        },
        VmCommand::ReadMemory { addr, len } => VmReply::Memory {
            addr,
            len,
            bytes: vm.read_memory(addr, len),
        },
        VmCommand::State => VmReply::State { state: vm.snapshot() },
        VmCommand::Shutdown => {
            return (VmReply::Ack, true);
        },
    };
    (reply, false)
}

/// The complaint about a request, if there is one: its command is unknown, or an argument is
/// not as it should be.
pub open spec fn complaint_about(req: ControlRequest) -> Option<Seq<char>> {
    let args = control::args_of(req);
    let name = req.command@;
    if name == "initialize"@ {
        None
    } else if name == "launch"@ || name == "load"@ {
        match control::string_value(args, "path"@) {
            Ok(_) => None,
            Err(text) => Some(text),
        }
    } else if name == "continue"@ || name == "pause"@ {
        None
    } else if name == "next"@ || name == "step"@ {
        match control::u64_value(args, "count"@, 1) {
            Ok(_) => None,
            Err(text) => Some(text),
        }
    } else if name == "restart"@ || name == "reset"@ {
        None
    } else if name == "readMemory"@ {
        match (control::u32_value(args, "addr"@, 0), control::u32_value(args, "len"@, 64)) {
            (Err(text), _) => Some(text),
            (Ok(_), Err(text)) => Some(text),
            (Ok(_), Ok(_)) => None,
        }
    } else if name == "state"@ || name == "registers"@ || name == "disconnect"@ || name
        == "shutdown"@ {
        None
    } else {
        Some(control::unsupported_text(name))
    }
}

/// Whether `command` is the one that `req` asks for, if there is no complaint about it.
pub open spec fn asks_for(req: ControlRequest, command: VmCommand) -> bool {
    let args = control::args_of(req);
    let name = req.command@;
    if name == "initialize"@ {
        command is Initialize
    } else if name == "launch"@ || name == "load"@ {
        command matches VmCommand::Launch { path } && control::string_value(args, "path"@) == Ok::<
            Seq<char>,
            Seq<char>,
        >(path@)
    } else if name == "continue"@ {
        command is Continue
    } else if name == "pause"@ {
        command is Pause
    } else if name == "next"@ || name == "step"@ {
        command matches VmCommand::Next { count } && control::u64_value(args, "count"@, 1) == Ok::<
            u64,
            Seq<char>,
        >(count)
    } else if name == "restart"@ || name == "reset"@ {
        command is Restart
    } else if name == "readMemory"@ {
        command matches VmCommand::ReadMemory { addr, len } && control::u32_value(args, "addr"@, 0)
            == Ok::<u32, Seq<char>>(addr) && control::u32_value(args, "len"@, 64) == Ok::<
            u32,
            Seq<char>,
        >(len)
    } else if name == "state"@ || name == "registers"@ {
        command is State
    } else {
        command is Shutdown
    }
}

/// The command that a request asks for.
pub fn command_from_request(req: &ControlRequest) -> (result: Result<VmCommand, String>)
    ensures
        match result {
            Ok(command) => complaint_about(*req) is None && asks_for(*req, command),
            Err(complaint) => complaint_about(*req) == Some(complaint@),
        },
{
    let args = match &req.arguments {
        Some(args) => Some(args),
        None => None,
    };
    let name = req.command.as_str();
    if text::same(name, "initialize") {
        Ok(VmCommand::Initialize)
    } else if text::same(name, "launch") || text::same(name, "load") {
        match parse_string_value(args, "path") {
            Ok(path) => Ok(VmCommand::Launch { path }),
            Err(complaint) => Err(complaint),
        }
    } else if text::same(name, "continue") {
        Ok(VmCommand::Continue)
    } else if text::same(name, "pause") {
        Ok(VmCommand::Pause)
    } else if text::same(name, "next") || text::same(name, "step") {
        match parse_u64_value(args, "count", 1) {
            Ok(count) => Ok(VmCommand::Next { count }),
            Err(complaint) => Err(complaint),
        }
    } else if text::same(name, "restart") || text::same(name, "reset") {
        Ok(VmCommand::Restart)
    } else if text::same(name, "readMemory") {
        match (parse_u32_value(args, "addr", 0), parse_u32_value(args, "len", 64)) {
            (Ok(addr), Ok(len)) => Ok(VmCommand::ReadMemory { addr, len }),
            (Err(complaint), _) => Err(complaint),
            (_, Err(complaint)) => Err(complaint),
        }
    } else if text::same(name, "state") || text::same(name, "registers") {
        Ok(VmCommand::State)
    } else if text::same(name, "disconnect") || text::same(name, "shutdown") {
        Ok(VmCommand::Shutdown)
    } else {
        Err("unsupported control command: ".to_owned().concat(name))
    }
}

/// The response that passes a reply on: an error is a refusal, anything else a success with the
/// reply as its body.
pub fn to_control_response(request_id: u64, command: String, reply: VmReply) -> (answer:
    ControlResponse<VmReply>)
    ensures
        match reply {
            VmReply::Error { message } => answer.refuses(request_id, command@, message@),
            _ => answer.succeeds(request_id, command@) && answer.body == Some(reply),
        },
{
    match reply {
        VmReply::Error { message } => error_response(request_id, command, message),
        other => response(request_id, command, Some(other)),
    }
}

/// The command to send to the machine for a request, or the response if there is none to send.
pub fn accept_control_request(req: &ControlRequest) -> (result: Result<
    VmCommand,
    ControlResponse<VmReply>,
>)
    ensures
        match result {
            Ok(command) => !req.is_foreign() && complaint_about(*req) is None && asks_for(
                *req,
                command,
            ),
            Err(answer) => if req.is_foreign() {
                answer.refuses(req.number(), req.command@, control::foreign_text())
            } else {
                complaint_about(*req) matches Some(complaint) && answer.refuses(
                    req.number(),
                    req.command@,
                    complaint,
                )
            },
        },
{
    if req.has_foreign_type() {
        return Err(
            error_response(
                req.request_id(),
                req.command.clone(),
                "if provided, type must be 'request'".to_owned(),
            ),
        );
    }
    match command_from_request(req) {
        Ok(command) => Ok(command),
        Err(complaint) => Err(error_response(req.request_id(), req.command.clone(), complaint)),
    }
}

/// The response to a request that was sent to the machine, given its reply, or why there is
/// none.
pub fn finish_control_request(req: ControlRequest, reply: Result<VmReply, String>) -> (answer:
    ControlResponse<VmReply>)
    ensures
        match reply {
            Ok(VmReply::Error { message }) => answer.refuses(req.number(), req.command@, message@),
            Err(message) => answer.refuses(req.number(), req.command@, message@),
            Ok(reply) => answer.succeeds(req.number(), req.command@) && answer.body == Some(reply),
        },
{
    let id: u64 = req.request_id();
    match reply {
        Ok(reply) => to_control_response(id, req.command, reply),
        Err(message) => to_control_response(id, req.command, VmReply::Error { message }),
    }
}

/// A command that is refused leaves the machine as it was, unless it was to load a program.
pub proof fn law_refused_command_changes_nothing(
    before: DebugModel,
    after: DebugModel,
    command: VmCommand,
    content: Option<Seq<u8>>,
    reply: VmReply,
)
    requires
        handled(before, after, command, content, reply),
        reply is Error,
        !(command is Launch),
        !(command is Restart),
    ensures
        after == before,
{
}

/// No two commands have the same name.
proof fn lemma_names_apart()
    ensures
        "initialize"@ != "launch"@,
        "initialize"@ != "load"@,
        "initialize"@ != "continue"@,
        "initialize"@ != "pause"@,
        "initialize"@ != "next"@,
        "initialize"@ != "step"@,
        "initialize"@ != "restart"@,
        "initialize"@ != "reset"@,
        "initialize"@ != "readMemory"@,
        "initialize"@ != "state"@,
        "initialize"@ != "registers"@,
        "initialize"@ != "disconnect"@,
        "initialize"@ != "shutdown"@,
        "launch"@ != "load"@,
        "launch"@ != "continue"@,
        "launch"@ != "pause"@,
        "launch"@ != "next"@,
        "launch"@ != "step"@,
        "launch"@ != "restart"@,
        "launch"@ != "reset"@,
        "launch"@ != "readMemory"@,
        "launch"@ != "state"@,
        "launch"@ != "registers"@,
        "launch"@ != "disconnect"@,
        "launch"@ != "shutdown"@,
        "load"@ != "continue"@,
        "load"@ != "pause"@,
        "load"@ != "next"@,
        "load"@ != "step"@,
        "load"@ != "restart"@,
        "load"@ != "reset"@,
        "load"@ != "readMemory"@,
        "load"@ != "state"@,
        "load"@ != "registers"@,
        "load"@ != "disconnect"@,
        "load"@ != "shutdown"@,
        "continue"@ != "pause"@,
        "continue"@ != "next"@,
        "continue"@ != "step"@,
        "continue"@ != "restart"@,
        "continue"@ != "reset"@,
        "continue"@ != "readMemory"@,
        "continue"@ != "state"@,
        "continue"@ != "registers"@,
        "continue"@ != "disconnect"@,
        "continue"@ != "shutdown"@,
        "pause"@ != "next"@,
        "pause"@ != "step"@,
        "pause"@ != "restart"@,
        "pause"@ != "reset"@,
        "pause"@ != "readMemory"@,
        "pause"@ != "state"@,
        "pause"@ != "registers"@,
        "pause"@ != "disconnect"@,
        "pause"@ != "shutdown"@,
        "next"@ != "step"@,
        "next"@ != "restart"@,
        "next"@ != "reset"@,
        "next"@ != "readMemory"@,
        "next"@ != "state"@,
        "next"@ != "registers"@,
        "next"@ != "disconnect"@,
        "next"@ != "shutdown"@,
        "step"@ != "restart"@,
        "step"@ != "reset"@,
        "step"@ != "readMemory"@,
        "step"@ != "state"@,
        "step"@ != "registers"@,
        "step"@ != "disconnect"@,
        "step"@ != "shutdown"@,
        "restart"@ != "reset"@,
        "restart"@ != "readMemory"@,
        "restart"@ != "state"@,
        "restart"@ != "registers"@,
        "restart"@ != "disconnect"@,
        "restart"@ != "shutdown"@,
        "reset"@ != "readMemory"@,
        "reset"@ != "state"@,
        "reset"@ != "registers"@,
        "reset"@ != "disconnect"@,
        "reset"@ != "shutdown"@,
        "readMemory"@ != "state"@,
        "readMemory"@ != "registers"@,
        "readMemory"@ != "disconnect"@,
        "readMemory"@ != "shutdown"@,
        "state"@ != "registers"@,
        "state"@ != "disconnect"@,
        "state"@ != "shutdown"@,
        "registers"@ != "disconnect"@,
        "registers"@ != "shutdown"@,
        "disconnect"@ != "shutdown"@,
{
    reveal_strlit("initialize");
    reveal_strlit("launch");
    reveal_strlit("load");
    reveal_strlit("continue");
    reveal_strlit("pause");
    reveal_strlit("next");
    reveal_strlit("step");
    reveal_strlit("restart");
    reveal_strlit("reset");
    reveal_strlit("readMemory");
    reveal_strlit("state");
    reveal_strlit("registers");
    reveal_strlit("disconnect");
    reveal_strlit("shutdown");
    assert("initialize"@.len() == 10);
    assert("launch"@.len() == 6);
    assert("load"@.len() == 4);
    assert("continue"@.len() == 8);
    assert("pause"@.len() == 5);
    assert("next"@.len() == 4);
    assert("step"@.len() == 4);
    assert("restart"@.len() == 7);
    assert("reset"@.len() == 5);
    assert("readMemory"@.len() == 10);
    assert("state"@.len() == 5);
    assert("registers"@.len() == 9);
    assert("disconnect"@.len() == 10);
    assert("shutdown"@.len() == 8);
    assert("initialize"@[0] != "readMemory"@[0]);
    assert("initialize"@[0] != "disconnect"@[0]);
    assert("load"@[0] != "next"@[0]);
    assert("load"@[0] != "step"@[0]);
    assert("continue"@[0] != "shutdown"@[0]);
    assert("pause"@[0] != "reset"@[0]);
    assert("pause"@[0] != "state"@[0]);
    assert("next"@[0] != "step"@[0]);
    assert("reset"@[0] != "state"@[0]);
    assert("readMemory"@[0] != "disconnect"@[0]);
}

/// Addresses are shown in hexadecimal, with eight digits behind the prefix.
pub proof fn law_shown_addresses(n: u32)
    ensures
        hex8(n).len() == 10,
        hex8(n)[0] == '0' && hex8(n)[1] == 'x',
        hex8(n).skip(2) == text::hex_padded(n as nat, 8),
{
    reveal_strlit("0x");
    text::law_eight_digits(n);
    assert(hex8(n).skip(2) =~= text::hex_padded(n as nat, 8));
}

/// A new machine has no program, and says so.
pub proof fn law_new_machine(options: VmRuntimeOptions, config: ConfigModel)
    ensures
        ({
            let machine = DebugModel::fresh(options, config);
            &&& machine.halted && !machine.running
            &&& machine.last_stop_reason == "No program loaded"@
            &&& machine.loaded_path is None
            &&& machine.entry == 0
            &&& machine.options == options && machine.config == config
            &&& machine.machine.cpu.pc == 0
            &&& forall|i: int| 0 <= i < 32 ==> machine.machine.cpu.x[i] == 0
            &&& machine.machine.stats.instret == 0 && machine.machine.stats.cycles == 0
            &&& machine.machine.memory.bounds is None
            &&& forall|addr: u32| !machine.machine.memory.bytes.contains_key(addr)
            &&& machine.machine.output.len() == 0
        }),
{
}

/// A program that was loaded is ready to start where its file says, alone in memory, with nothing
/// counted; a file that is no program, or cannot be read, leaves empty memory and nothing counted,
/// and the rest as it was.
pub proof fn law_launched(machine: DebugModel, path: Seq<char>, content: Option<Seq<u8>>)
    ensures
        ({
            let after = machine.launched(path, content);
            let empty = MemoryModel {
                bytes: Map::empty(),
                bounds: None,
                caches: crate::cache::CachesModel::fresh(machine.options, machine.config),
            };
            let blob = content->0;
            let accepted = content is Some && elf::verdict(blob) == ElfVerdict::Accepted;
            &&& loadable(content) == accepted
            &&& after.machine.stats == StatsModel::zero()
            &&& after.machine.output == machine.machine.output
            &&& after.options == machine.options && after.config == machine.config
            &&& accepted ==> {
                &&& after.machine.cpu == CpuModel::start(elf::entry(blob))
                &&& after.machine.memory == elf::loaded(empty, blob, elf::segment_count(blob))
                &&& after.loaded_path == Some(path)
                &&& after.entry == elf::entry(blob)
                &&& !after.halted && !after.running
                &&& after.last_stop_reason == "Program loaded"@
            }
            &&& !accepted ==> {
                &&& after.machine.memory == empty
                &&& after.machine.cpu == machine.machine.cpu
                &&& after.loaded_path == machine.loaded_path
                &&& after.entry == machine.entry
                &&& after.halted == machine.halted && after.running == machine.running
                &&& after.last_stop_reason == machine.last_stop_reason
            }
        }),
{
}

/// A run goes as far as it has room for. It says so if it stopped for that, or stopped when it had
/// used up its room; any other stop halts the machine, and is told by its name, and so does the
/// end of the program.
pub proof fn law_ran(machine: DebugModel, local_quota: Option<u64>)
    requires
        !machine.halted,
    ensures
        ({
            let max = machine.options.max_instructions;
            let cap = if local_quota is Some && (max is None || local_quota->0 <= max->0) {
                local_quota->0
            } else if max is Some {
                max->0
            } else {
                u64::MAX
            };
            let (reached, end) = machine.machine.driven(machine.config, cap, Set::empty());
            let after = machine.ran(local_quota);
            let spent = end is Stopped && (end->Stopped_0 == CpuStop::QuotaExceeded
                || reached.stats.instret >= cap);
            &&& after.machine == reached
            &&& spent ==> !after.halted && after.running == machine.running
                && after.last_stop_reason == "QuotaReached"@
            &&& end is Stopped && !spent ==> after.halted && !after.running
                && after.last_stop_reason == end->Stopped_0.text()
            &&& end !is Stopped ==> after.halted && !after.running && after.last_stop_reason
                == "Program exited"@
            &&& after.loaded_path == machine.loaded_path && after.entry == machine.entry
        }),
{
}

/// Steps are a run with room for as many instructions more as they are, one at least. They are
/// complete unless the run halted the machine, which is then not running. A running machine goes
/// on in the same way, and says that it is running.
pub proof fn law_steps_and_quanta(machine: DebugModel, count: u64)
    requires
        !machine.halted,
    ensures
        ({
            let instret = machine.machine.stats.instret;
            let wanted = if count == 0 {
                instret + 1
            } else {
                instret + count
            };
            let room: u64 = if wanted > u64::MAX {
                u64::MAX
            } else {
                wanted as u64
            };
            let stepped = DebugModel { running: false, ..machine }.ran(Some(room));
            let ran = machine.ran(Some(room));
            &&& stepped.halted ==> machine.stepped(count) == stepped
            &&& !stepped.halted ==> machine.stepped(count) == (DebugModel {
                last_stop_reason: "Step complete"@,
                ..stepped
            })
            &&& ran.halted ==> machine.continued(count) == ran
            &&& !ran.halted && machine.running ==> machine.continued(count) == (DebugModel {
                last_stop_reason: "Running"@,
                ..ran
            })
            &&& !ran.halted && !machine.running ==> machine.continued(count) == ran
        }),
{
}

/// A machine without a program does not move: it neither steps nor starts, and stops running. One
/// with a program starts when it is told to; either pauses when it is told to, and says so.
pub proof fn law_start_and_pause(machine: DebugModel, count: u64)
    ensures
        machine.halted ==> machine.stepped(count) == machine && machine.started() == machine
            && machine.ran(Some(count)) == machine && machine.continued(count) == (DebugModel {
            running: false,
            ..machine
        }),
        !machine.halted ==> machine.started() == (DebugModel {
            running: true,
            last_stop_reason: "Running"@,
            ..machine
        }),
        machine.paused() == (DebugModel {
            running: false,
            last_stop_reason: "Paused by client"@,
            ..machine
        }),
{
}

/// What is shown of a machine is what it is, each thing under its own name.
pub proof fn law_snapshots(machine: DebugModel, snapshot: DebugSnapshot, with_jal: bool)
    requires
        machine.shown_by(snapshot, with_jal),
    ensures
        snapshot.running == machine.running,
        snapshot.halted == machine.halted,
        snapshot.pc == machine.machine.cpu.pc,
        snapshot.pc_hex@ == "0x"@ + text::hex_padded(machine.machine.cpu.pc as nat, 8),
        snapshot.entry == machine.entry,
        snapshot.entry_hex@ == "0x"@ + text::hex_padded(machine.entry as nat, 8),
        snapshot.loaded_path is Some <==> machine.loaded_path is Some,
        snapshot.loaded_path matches Some(path) ==> machine.loaded_path == Some(path@),
        snapshot.last_stop_reason@ == machine.last_stop_reason,
        snapshot.registers@ == machine.machine.cpu.x,
        snapshot.stats@ == machine.machine.stats,
        ({
            let pc = machine.machine.cpu.pc;
            let code = disasm::encoded(machine.machine.memory.bytes, pc);
            let instruction = disasm::shown(code, pc, with_jal);
            &&& snapshot.current_instruction@ == instruction.text
            &&& snapshot.current_instruction_size == instruction.size
            &&& snapshot.current_instruction_hex is Some <==> instruction.hex is Some
            &&& snapshot.current_instruction_hex matches Some(hex) ==> instruction.hex == Some(hex@)
            &&& snapshot.current_instruction_bytes is Some <==> instruction.bytes is Some
            &&& snapshot.current_instruction_bytes matches Some(bytes) ==> instruction.bytes == Some(
                bytes@,
            )
        }),
{
}

/// Each command does what it is called, and its reply tells what came of it: where a program
/// starts, the machine, bytes of memory, or nothing but that it was done. Without a program the
/// machine neither goes on nor steps, and without one there is nothing to start again.
pub proof fn law_commands(
    before: DebugModel,
    after: DebugModel,
    command: VmCommand,
    content: Option<Seq<u8>>,
    reply: VmReply,
)
    requires
        handled(before, after, command, content, reply),
    ensures
        command is Initialize || command is Shutdown ==> after == before && reply is Ack,
        command matches VmCommand::Launch { path } ==> after == before.launched(path@, content) && (
        loadable(content) ==> (reply matches VmReply::Loaded { entry, entry_hex } && entry
            == elf::entry(content->0) && entry_hex@ == hex8(entry))) && (!loadable(content) ==> (
        reply matches VmReply::Error { message } && message@ == "Failed to load program: "@
            + path@)),
        command is Continue ==> after == before.started() && (before.halted ==> (
        reply matches VmReply::Error { message } && message@
            == "Program is halted or not loaded"@)) && (!before.halted ==> reply is Ack),
        command is Pause ==> after == before.paused() && (reply matches VmReply::State { state }
            && after.shown_by(state, false)),
        command matches VmCommand::Next { count } ==> after == before.stepped(count) && (
        before.halted ==> (reply matches VmReply::Error { message } && message@
            == "Program is halted or not loaded"@)) && (!before.halted ==> (
        reply matches VmReply::State { state } && after.shown_by(state, false))),
        command is Restart && before.loaded_path is None ==> after == before && (
        reply matches VmReply::Error { message } && message@ == "No loaded program to reset"@),
        command is Restart && before.loaded_path is Some ==> after == before.launched(
            before.loaded_path->0,
            content,
        ) && (loadable(content) ==> (reply matches VmReply::State { state } && after.shown_by(
            state,
            false,
        ))) && (!loadable(content) ==> (reply matches VmReply::Error { message } && message@
            == "Failed to load program: "@ + before.loaded_path->0)),
        command matches VmCommand::ReadMemory { addr, len } ==> after == before && (
        reply matches VmReply::Memory { addr: at, len: n, bytes } && at == addr && n == len
            && bytes@ == memory::bytes_at(before.machine.memory.bytes, addr, len as nat)),
        command is State ==> after == before && (reply matches VmReply::State { state }
            && after.shown_by(state, false)),
{
}

/// The names of the commands without arguments, each with its command; about none of them is there
/// a complaint.
pub proof fn law_names_of_commands(req: ControlRequest, command: VmCommand)
    requires
        asks_for(req, command),
    ensures
        ({
            let name = req.command@;
            let plain = complaint_about(req) is None;
            &&& name == "initialize"@ ==> plain && command is Initialize
            &&& name == "continue"@ ==> plain && command is Continue
            &&& name == "pause"@ ==> plain && command is Pause
            &&& name == "restart"@ || name == "reset"@ ==> plain && command is Restart
            &&& name == "state"@ || name == "registers"@ ==> plain && command is State
            &&& name == "disconnect"@ || name == "shutdown"@ ==> plain && command is Shutdown
        }),
{
    lemma_names_apart();
}

/// The commands with arguments take them by their names: a path; a count, which is one unless told
/// otherwise; an address and a length, which are zero and 64 unless told otherwise. What is wrong
/// with an argument is the complaint, in this order.
pub proof fn law_commands_with_arguments(req: ControlRequest, command: VmCommand)
    requires
        asks_for(req, command),
    ensures
        ({
            let name = req.command@;
            let args = control::args_of(req);
            let said = complaint_about(req);
            let path = control::string_value(args, "path"@);
            let count = control::u64_value(args, "count"@, 1);
            let addr = control::u32_value(args, "addr"@, 0);
            let len = control::u32_value(args, "len"@, 64);
            &&& name == "launch"@ || name == "load"@ ==> (command matches VmCommand::Launch {
                path: asked,
            } && path == Ok::<Seq<char>, Seq<char>>(asked@)) && said is None
            &&& name == "next"@ || name == "step"@ ==> (command matches VmCommand::Next {
                count: asked,
            } && count == Ok::<u64, Seq<char>>(asked)) && said is None
            &&& name == "readMemory"@ ==> (command matches VmCommand::ReadMemory {
                addr: at,
                len: asked,
            } && addr == Ok::<u32, Seq<char>>(at) && len == Ok::<u32, Seq<char>>(asked))
                && said is None
        }),
{
    lemma_names_apart();
}

/// What is wrong with an argument is the complaint about a request, that of the first argument
/// first; a command that there is not is another one, and names that command.
pub proof fn law_complaints(req: ControlRequest)
    ensures
        ({
            let name = req.command@;
            let args = control::args_of(req);
            let said = complaint_about(req);
            let path = control::string_value(args, "path"@);
            let count = control::u64_value(args, "count"@, 1);
            let addr = control::u32_value(args, "addr"@, 0);
            let len = control::u32_value(args, "len"@, 64);
            &&& (name == "launch"@ || name == "load"@) && path is Err ==> said == Some(path->Err_0)
            &&& (name == "launch"@ || name == "load"@) && path is Ok ==> said is None
            &&& (name == "next"@ || name == "step"@) && count is Err ==> said == Some(count->Err_0)
            &&& (name == "next"@ || name == "step"@) && count is Ok ==> said is None
            &&& name == "readMemory"@ && addr is Err ==> said == Some(addr->Err_0)
            &&& name == "readMemory"@ && addr is Ok && len is Err ==> said == Some(len->Err_0)
            &&& name == "readMemory"@ && addr is Ok && len is Ok ==> said is None
            &&& !(name == "initialize"@
                || name == "launch"@
                || name == "load"@
                || name == "continue"@
                || name == "pause"@
                || name == "next"@
                || name == "step"@
                || name == "restart"@
                || name == "reset"@
                || name == "readMemory"@
                || name == "state"@
                || name == "registers"@
                || name == "disconnect"@
                || name == "shutdown"@) ==> said == Some(
                "unsupported control command: "@ + name,
            )
        }),
{
    lemma_names_apart();
}

} // verus!
