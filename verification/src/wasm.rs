//! The machine of the debugging interface inside a browser: programs come as bytes, and their
//! output is dropped.

use crate::browser;
use crate::config::SimConfig;
use crate::control::{
    self, decode_base64, error_response, parse_u32_value, parse_u64_value, response, ArgValue,
    Arguments, ControlRequest, ControlResponse, ValueModel,
};
use crate::debug_ui::{self, DebugMachine, DebugModel, DebugSnapshot};
use crate::elf::{self, ElfError, ElfVerdict};
use crate::json;
use crate::machine::MachineModel;
use crate::memory;
use crate::text;
use crate::vm;
use vstd::prelude::*;

verus! {

/// A program that was loaded.
#[derive(Debug)]
pub struct LoadedProgram {
    pub name: String,
    pub bytes: Vec<u8>,
}

/// The machine.
#[derive(Debug)]
pub struct HecateVmWasm {
    pub core: DebugMachine,
    pub loaded: Option<LoadedProgram>,
}

/// What the machine holds: that of the debugging interface, and the program that was loaded
/// last, by name and bytes.
pub ghost struct WasmModel {
    pub core: DebugModel,
    pub loaded: Option<(Seq<char>, Seq<u8>)>,
}

impl View for HecateVmWasm {
    type V = WasmModel;

    open spec fn view(&self) -> WasmModel {
        WasmModel {
            core: self.core@,
            loaded: match self.loaded {
                Some(program) => Some((program.name@, program.bytes@)),
                None => None,
            },
        }
    }
}

/// What comes of a command.
#[derive(Debug)]
pub enum WasmBody {
    Ack,
    NoExamples,
    Loaded { entry: u32, entry_hex: String },
    State { state: DebugSnapshot },
    Memory { addr: u32, len: u32, bytes: Vec<u8> },
}

/// What comes of a command, or a complaint.
pub type Outcome = Result<WasmBody, String>;

/// A machine whose output was dropped.
pub open spec fn silenced(core: DebugModel) -> DebugModel {
    DebugModel { machine: MachineModel { output: Seq::empty(), ..core.machine }, ..core }
}

impl WasmModel {
    pub open spec fn wf(self) -> bool {
        self.core.wf()
    }

    /// A machine without a program.
    pub open spec fn fresh() -> WasmModel {
        WasmModel {
            core: DebugModel::fresh(
                browser::sizes(),
                crate::config::complete(crate::config::RawModel::empty(), Map::empty()),
            ),
            loaded: None,
        }
    }

    /// After a request to load the program `blob` under `name`.
    pub open spec fn launched(self, name: Seq<char>, blob: Seq<u8>) -> WasmModel {
        WasmModel {
            core: self.core.loaded(name, blob),
            loaded: if elf::verdict(blob) == ElfVerdict::Accepted {
                Some((name, blob))
            } else {
                self.loaded
            },
        }
    }

    /// After a request to show itself: a running machine moves on first.
    pub open spec fn looked_at(self) -> WasmModel {
        if self.core.running && !self.core.halted {
            WasmModel { core: silenced(self.core.continued(5_000)), ..self }
        } else {
            self
        }
    }
}

/// Whether `outcome` is the complaint `text`.
pub open spec fn complains(outcome: Outcome, text: Seq<char>) -> bool {
    outcome matches Err(complaint) && complaint@ == text
}

/// Whether a machine that a request left as `moved` is then `after`, and `outcome` shows it.
pub open spec fn shows(outcome: Outcome, moved: WasmModel, after: WasmModel) -> bool {
    &&& after == moved.looked_at()
    &&& outcome matches Ok(WasmBody::State { state }) && after.core.shown_by(state, true)
}

/// The name and the bytes of the program to load, given what reading the list of bytes gave, and
/// what the text in Base64 `decoded` to; or a complaint.
pub open spec fn launch_args_from(
    args: Option<&Arguments>,
    list: Result<Seq<u8>, Seq<char>>,
    decoded: Result<Seq<u8>, Seq<char>>,
) -> Result<(Seq<char>, Seq<u8>), Seq<char>> {
    match (
        args,
        control::argument_of(args, "name"@),
        control::argument_of(args, "bytes"@),
        control::argument_of(args, "bytesBase64"@),
    ) {
        (None, _, _, _) => Err("missing arguments"@),
        (Some(_), Some(ValueModel::Text(name)), Some(_), _) => match list {
            Ok(bytes) => Ok((name, bytes)),
            Err(complaint) => Err("invalid bytes array: "@ + complaint),
        },
        (
            Some(_),
            Some(ValueModel::Text(name)),
            None,
            Some(ValueModel::Text(encoded)),
        ) => match decoded {
            Ok(bytes) => Ok((name, bytes)),
            Err(complaint) => Err("invalid bytesBase64 payload: "@ + complaint),
        },
        (Some(_), Some(ValueModel::Text(name)), None, _) => Err(
            "missing launch bytes payload (bytes or bytesBase64)"@,
        ),
        (Some(_), _, _, _) => Err("missing argument: name"@),
    }
}

/// What reading the list of bytes among the arguments gives.
pub open spec fn launch_list(args: Option<&Arguments>) -> Result<Seq<u8>, Seq<char>> {
    match control::argument_of(args, "bytes"@) {
        Some(value) => json::listed_bytes(value),
        None => Err(""@),
    }
}

/// What the text in Base64 among the arguments stands for.
pub open spec fn launch_decoded(args: Option<&Arguments>) -> Result<Seq<u8>, Seq<char>> {
    match control::argument_of(args, "bytesBase64"@) {
        Some(ValueModel::Text(encoded)) => control::base64_decoded(encoded),
        _ => Err(""@),
    }
}

/// The name and the bytes of the program to load, or a complaint.
pub open spec fn launch_args(args: Option<&Arguments>) -> Result<
    (Seq<char>, Seq<u8>),
    Seq<char>,
> {
    launch_args_from(args, launch_list(args), launch_decoded(args))
}

/// Whether `result` holds what `wanted` says.
pub open spec fn launches(
    result: Result<(String, Vec<u8>), String>,
    wanted: Result<(Seq<char>, Seq<u8>), Seq<char>>,
) -> bool {
    match (result, wanted) {
        (Ok((name, bytes)), Ok((wanted, content))) => name@ == wanted && bytes@ == content,
        (Err(complaint), Err(text)) => complaint@ == text,
        _ => false,
    }
}

/// The view of what reading bytes gave.
pub open spec fn read_list(list: Result<Vec<u8>, String>) -> Result<Seq<u8>, Seq<char>> {
    match list {
        Ok(bytes) => Ok(bytes@),
        Err(complaint) => Err(complaint@),
    }
}

/// The name and the bytes of the program to load.
pub fn parse_launch_bytes_args(args: Option<&Arguments>) -> (result: Result<
    (String, Vec<u8>),
    String,
>)
    ensures
        launches(result, launch_args(args)),
{
    let list = match args {
        Some(given) => match given.get("bytes") {
            Some(value) => json::read_listed_bytes(value),
            None => Err("".to_owned()),
        },
        None => Err("".to_owned()),
    };
    let decoded = match args {
        Some(given) => match given.get("bytesBase64") {
            Some(ArgValue::Text(encoded)) => decode_base64(encoded.as_str()),
            _ => Err("".to_owned()),
        },
        None => Err("".to_owned()),
    };
    parse_launch_bytes_from(args, list, decoded)
}

/// The name and the bytes of the program to load, given what reading the list of bytes gave, and
/// what the text in Base64 `decoded` to.
pub fn parse_launch_bytes_from(
    args: Option<&Arguments>,
    list: Result<Vec<u8>, String>,
    decoded: Result<Vec<u8>, String>,
) -> (result: Result<(String, Vec<u8>), String>)
    ensures
        launches(result, launch_args_from(args, read_list(list), read_list(decoded))),
{
    let Some(args) = args else {
        return Err("missing arguments".to_owned());
    };
    let name = match args.get("name") {
        Some(ArgValue::Text(name)) => name.clone(),
        _ => return Err("missing argument: name".to_owned()),
    };
    if args.get("bytes").is_some() {
        return match list {
            Ok(bytes) => Ok((name, bytes)),
            Err(complaint) => Err("invalid bytes array: ".to_owned().concat(complaint.as_str())),
        };
    }
    match args.get("bytesBase64") {
        Some(ArgValue::Text(_)) => match decoded {
            Ok(bytes) => Ok((name, bytes)),
            Err(complaint) => Err(
                "invalid bytesBase64 payload: ".to_owned().concat(complaint.as_str()),
            ),
        },
        _ => Err("missing launch bytes payload (bytes or bytesBase64)".to_owned()),
    }
}

/// What a request to load a program does, and what comes of it.
pub open spec fn launch_done(
    before: WasmModel,
    after: WasmModel,
    args: Option<&Arguments>,
    outcome: Outcome,
) -> bool {
    match launch_args(args) {
        Err(text) => after == before && complains(outcome, text),
        Ok((name, blob)) => {
            &&& after == before.launched(name, blob)
            &&& if elf::verdict(blob) == ElfVerdict::Accepted {
                outcome matches Ok(WasmBody::Loaded { entry, entry_hex }) && entry == elf::entry(
                    blob,
                ) && entry_hex@ == debug_ui::hex8(entry)
            } else {
                complains(outcome, vm::not_a_program_text(name, blob))
            }
        },
    }
}

/// What a command does, and what comes of it.
pub open spec fn done(
    before: WasmModel,
    after: WasmModel,
    command: Seq<char>,
    args: Option<&Arguments>,
    outcome: Outcome,
) -> bool {
    if command == "initialize"@ {
        after == before && outcome matches Ok(WasmBody::Ack)
    } else if command == "examples"@ {
        after == before && outcome matches Ok(WasmBody::NoExamples)
    } else if command == "launchBytes"@ || command == "upload"@ {
        launch_done(before, after, args, outcome)
    } else if command == "continue"@ {
        &&& after == WasmModel { core: before.core.started(), ..before }
        &&& if before.core.halted {
            complains(outcome, control::halted_text())
        } else {
            outcome matches Ok(WasmBody::Ack)
        }
    } else if command == "pause"@ {
        shows(outcome, WasmModel { core: before.core.paused(), ..before }, after)
    } else if command == "next"@ || command == "step"@ {
        match control::u64_value(args, "count"@, 1) {
            Err(text) => after == before && complains(outcome, text),
            Ok(count) => if before.core.halted {
                after == before && complains(outcome, control::halted_text())
            } else {
                shows(
                    outcome,
                    WasmModel { core: silenced(before.core.stepped(count)), ..before },
                    after,
                )
            },
        }
    } else if command == "restart"@ || command == "reset"@ {
        match before.loaded {
            None => after == before && complains(outcome, debug_ui::nothing_loaded_text()),
            Some((name, blob)) => if elf::verdict(blob) == ElfVerdict::Accepted {
                shows(outcome, before.launched(name, blob), after)
            } else {
                after == before.launched(name, blob) && complains(
                    outcome,
                    vm::not_a_program_text(name, blob),
                )
            },
        }
    } else if command == "readMemory"@ {
        &&& after == before
        &&& match (
            control::u32_value(args, "addr"@, 0),
            control::u32_value(args, "len"@, 64),
        ) {
            (Err(text), _) => complains(outcome, text),
            (Ok(_), Err(text)) => complains(outcome, text),
            (Ok(from), Ok(count)) => outcome matches Ok(WasmBody::Memory { addr, len, bytes })
                && addr == from && len == count && bytes@ == memory::bytes_at(
                before.core.machine.memory.bytes,
                from,
                count as nat,
            ),
        }
    } else if command == "state"@ || command == "registers"@ {
        shows(outcome, before, after)
    } else if command == "disconnect"@ || command == "shutdown"@ {
        &&& after == WasmModel { core: DebugModel { running: false, ..before.core }, ..before }
        &&& outcome matches Ok(WasmBody::Ack)
    } else {
        after == before && complains(outcome, control::unsupported_text(command))
    }
}

impl HecateVmWasm {
    /// A machine without a program.
    pub fn new() -> (wasm: HecateVmWasm)
        ensures
            wasm@ == WasmModel::fresh(),
            wasm@.wf(),
    {
        let core = DebugMachine::new(browser::default_options(), SimConfig::default());
        HecateVmWasm { core, loaded: None }
    }

    /// Loads the program `bytes` under `name`.
    pub fn load_program_bytes(&mut self, name: String, bytes: Vec<u8>) -> (result: Result<
        (),
        String,
    >)
        requires
            old(self)@.wf(),
        ensures
            final(self)@ == old(self)@.launched(name@, bytes@),
            final(self)@.wf(),
            match result {
                Ok(()) => elf::verdict(bytes@) == ElfVerdict::Accepted,
                Err(complaint) => elf::verdict(bytes@) != ElfVerdict::Accepted && complaint@
                    == vm::not_a_program_text(name@, bytes@),
            },
    {
        let front = "ELF parse failed for ".to_owned().concat(name.as_str()).concat(": ");
        match self.core.load_bytes(name.clone(), bytes.as_slice()) {
            Ok(()) => {
                self.loaded = Some(LoadedProgram { name, bytes });
                Ok(())
            },
            Err(ElfError::Refused(complaint)) => Err(front.concat(complaint.as_str())),
            Err(ElfError::Unaddressable) => Err(
                front.concat("reference to data beyond the 32-bit range"),
            ),
        }
    }

    /// Loads the program `bytes` under `name`, and says where it starts.
    pub fn load_bytes(&mut self, bytes: Vec<u8>, name: String) -> (result: Result<
        (u32, String, String),
        String,
    >)
        requires
            old(self)@.wf(),
        ensures
            final(self)@ == old(self)@.launched(name@, bytes@),
            final(self)@.wf(),
            match result {
                Ok((entry, entry_hex, loaded_path)) => {
                    &&& elf::verdict(bytes@) == ElfVerdict::Accepted
                    &&& entry == elf::entry(bytes@)
                    &&& entry_hex@ == debug_ui::hex8(entry)
                    &&& loaded_path@ == name@
                },
                Err(complaint) => elf::verdict(bytes@) != ElfVerdict::Accepted && complaint@
                    == vm::not_a_program_text(name@, bytes@),
            },
    {
        match self.load_program_bytes(name.clone(), bytes) {
            Ok(()) => Ok((self.core.entry, debug_ui::to_hex8(self.core.entry), name)),
            Err(complaint) => Err(complaint),
        }
    }

    /// Loads the program again that was loaded last.
    pub fn reset_to_beginning(&mut self) -> (result: Result<(), String>)
        requires
            old(self)@.wf(),
        ensures
            final(self)@.wf(),
            match old(self)@.loaded {
                Some((name, blob)) => {
                    &&& final(self)@ == old(self)@.launched(name, blob)
                    &&& match result {
                        Ok(()) => elf::verdict(blob) == ElfVerdict::Accepted,
                        Err(complaint) => elf::verdict(blob) != ElfVerdict::Accepted && complaint@
                            == vm::not_a_program_text(name, blob),
                    }
                },
                None => {
                    &&& final(self)@ == old(self)@
                    &&& result matches Err(complaint) && complaint@
                        == debug_ui::nothing_loaded_text()
                },
            },
    {
        let (name, bytes) = match &self.loaded {
            Some(program) => (program.name.clone(), vm::copy_bytes(program.bytes.as_slice())),
            None => return Err("No loaded program to reset".to_owned()),
        };
        self.load_program_bytes(name, bytes)
    }

    /// Drops the output.
    fn silence(&mut self)
        ensures
            final(self)@ == (WasmModel { core: silenced(old(self)@.core), ..old(self)@ }),
    {
        let _ = self.core.take_output();
    }

    /// What the machine shows of itself; a running machine moves on first.
    pub fn snapshot(&mut self) -> (snapshot: DebugSnapshot)
        requires
            old(self)@.wf(),
        ensures
            final(self)@ == old(self)@.looked_at(),
            final(self)@.wf(),
            final(self)@.core.shown_by(snapshot, true),
    {
        if self.core.wants_to_run() {
            self.core.continue_run_quantum(5_000);
            self.silence();
        }
        self.core.snapshot_with(true)
    }

    fn show(&mut self) -> (outcome: Outcome)
        requires
            old(self)@.wf(),
        ensures
            shows(outcome, old(self)@, final(self)@),
            final(self)@.wf(),
    {
        Ok(WasmBody::State { state: self.snapshot() })
    }

    fn do_launch(&mut self, args: Option<&Arguments>) -> (outcome: Outcome)
        requires
            old(self)@.wf(),
        ensures
            final(self)@.wf(),
            launch_done(old(self)@, final(self)@, args, outcome),
    {
        match parse_launch_bytes_args(args) {
            Ok((name, bytes)) => match self.load_program_bytes(name, bytes) {
                Ok(()) => Ok(
                    WasmBody::Loaded {
                        entry: self.core.entry,
                        entry_hex: debug_ui::to_hex8(self.core.entry),
                    },
                ),
                Err(complaint) => Err(complaint),
            },
            Err(complaint) => Err(complaint),
        }
    }

    /// Carries out a command.
    #[verifier::rlimit(40)]
    pub fn execute(&mut self, command: &str, args: Option<&Arguments>) -> (outcome: Outcome)
        requires
            old(self)@.wf(),
        ensures
            done(old(self)@, final(self)@, command@, args, outcome),
            final(self)@.wf(),
    {
        if text::same(command, "initialize") {
            Ok(WasmBody::Ack)
        } else if text::same(command, "examples") {
            Ok(WasmBody::NoExamples)
        } else if text::same(command, "launchBytes") || text::same(command, "upload") {
            self.do_launch(args)
        } else if text::same(command, "continue") {
            if self.core.halted {
                Err("Program is halted or not loaded".to_owned())
            } else {
                self.core.running = true;
                self.core.last_stop_reason = "Running".to_owned();
                Ok(WasmBody::Ack)
            }
        } else if text::same(command, "pause") {
            self.core.running = false;
            self.core.last_stop_reason = "Paused by client".to_owned();
            self.show()
        } else if text::same(command, "next") || text::same(command, "step") {
            let count: u64 = match parse_u64_value(args, "count", 1) {
                Ok(count) => count,
                Err(complaint) => return Err(complaint),
            };
            match self.core.step(count) {
                Ok(()) => {
                    self.silence();
                    self.show()
                },
                Err(complaint) => Err(complaint),
            }
        } else if text::same(command, "restart") || text::same(command, "reset") {
            match self.reset_to_beginning() {
                Ok(()) => self.show(),
                Err(complaint) => Err(complaint),
            }
        } else if text::same(command, "readMemory") {
            match (parse_u32_value(args, "addr", 0), parse_u32_value(args, "len", 64)) {
                (Ok(addr), Ok(len)) => Ok(
                    WasmBody::Memory { addr, len, bytes: self.core.read_memory(addr, len) },
                ),
                (Err(complaint), _) => Err(complaint),
                (_, Err(complaint)) => Err(complaint),
            }
        } else if text::same(command, "state") || text::same(command, "registers") {
            self.show()
        } else if text::same(command, "disconnect") || text::same(command, "shutdown") {
            self.core.running = false;
            Ok(WasmBody::Ack)
        } else {
            Err("unsupported control command: ".to_owned().concat(command))
        }
    }

    /// Carries out a command; what comes of it is its value.
    pub fn command(&mut self, command: &str, args: Option<&Arguments>) -> (outcome: Outcome)
        requires
            old(self)@.wf(),
        ensures
            done(old(self)@, final(self)@, command@, args, outcome),
            final(self)@.wf(),
    {
        self.execute(command, args)
    }

    /// Carries out a request, and answers it.
    pub fn control(&mut self, req: ControlRequest) -> (answer: ControlResponse<WasmBody>)
        requires
            old(self)@.wf(),
        ensures
            final(self)@.wf(),
            exists|outcome: Outcome| #[trigger]
                done(
                    old(self)@,
                    final(self)@,
                    req.command@,
                    control::args_of(req),
                    outcome,
                ) && match outcome {
                    Ok(body) => answer.succeeds(req.number(), req.command@) && answer.body == Some(
                        body,
                    ),
                    Err(complaint) => answer.refuses(req.number(), req.command@, complaint@),
                },
    {
        let id: u64 = req.request_id();
        let args = match &req.arguments {
            Some(args) => Some(args),
            None => None,
        };
        let outcome = self.execute(req.command.as_str(), args);
        let ghost shown = outcome;
        assert(done(
            old(self)@,
            self@,
            req.command@,
            control::args_of(req),
            shown,
        ));
        match outcome {
            Ok(body) => response(id, req.command, Some(body)),
            Err(complaint) => error_response(id, req.command, complaint),
        }
    }
}

/// A machine without a program.
pub fn create_hecate_vm() -> (wasm: HecateVmWasm)
    ensures
        wasm@ == WasmModel::fresh(),
        wasm@.wf(),
{
    HecateVmWasm::new()
}

/// No two commands have the same name.
proof fn lemma_names_apart()
    ensures
        "initialize"@ != "examples"@,
        "initialize"@ != "launchBytes"@,
        "initialize"@ != "upload"@,
        "initialize"@ != "continue"@,
        "initialize"@ != "pause"@,
        "initialize"@ != "next"@,
        "initialize"@ != "step"@,
        "initialize"@ != "restart"@,
        "initialize"@ != "reset"@,
        "initialize"@ != "readMemory"@,
        "initialize"@ != "state"@,
        "initialize"@ != "registers"@,
        "initialize"@ != "disconnect"@,
        "initialize"@ != "shutdown"@,
        "examples"@ != "launchBytes"@,
        "examples"@ != "upload"@,
        "examples"@ != "continue"@,
        "examples"@ != "pause"@,
        "examples"@ != "next"@,
        "examples"@ != "step"@,
        "examples"@ != "restart"@,
        "examples"@ != "reset"@,
        "examples"@ != "readMemory"@,
        "examples"@ != "state"@,
        "examples"@ != "registers"@,
        "examples"@ != "disconnect"@,
        "examples"@ != "shutdown"@,
        "launchBytes"@ != "upload"@,
        "launchBytes"@ != "continue"@,
        "launchBytes"@ != "pause"@,
        "launchBytes"@ != "next"@,
        "launchBytes"@ != "step"@,
        "launchBytes"@ != "restart"@,
        "launchBytes"@ != "reset"@,
        "launchBytes"@ != "readMemory"@,
        "launchBytes"@ != "state"@,
        "launchBytes"@ != "registers"@,
        "launchBytes"@ != "disconnect"@,
        "launchBytes"@ != "shutdown"@,
        "upload"@ != "continue"@,
        "upload"@ != "pause"@,
        "upload"@ != "next"@,
        "upload"@ != "step"@,
        "upload"@ != "restart"@,
        "upload"@ != "reset"@,
        "upload"@ != "readMemory"@,
        "upload"@ != "state"@,
        "upload"@ != "registers"@,
        "upload"@ != "disconnect"@,
        "upload"@ != "shutdown"@,
        "continue"@ != "pause"@,
        "continue"@ != "next"@,
        "continue"@ != "step"@,
        "continue"@ != "restart"@,
        "continue"@ != "reset"@,
        "continue"@ != "readMemory"@,
        "continue"@ != "state"@,
        "continue"@ != "registers"@,
        "continue"@ != "disconnect"@,
        "continue"@ != "shutdown"@,
        "pause"@ != "next"@,
        "pause"@ != "step"@,
        "pause"@ != "restart"@,
        "pause"@ != "reset"@,
        "pause"@ != "readMemory"@,
        "pause"@ != "state"@,
        "pause"@ != "registers"@,
        "pause"@ != "disconnect"@,
        "pause"@ != "shutdown"@,
        "next"@ != "step"@,
        "next"@ != "restart"@,
        "next"@ != "reset"@,
        "next"@ != "readMemory"@,
        "next"@ != "state"@,
        "next"@ != "registers"@,
        "next"@ != "disconnect"@,
        "next"@ != "shutdown"@,
        "step"@ != "restart"@,
        "step"@ != "reset"@,
        "step"@ != "readMemory"@,
        "step"@ != "state"@,
        "step"@ != "registers"@,
        "step"@ != "disconnect"@,
        "step"@ != "shutdown"@,
        "restart"@ != "reset"@,
        "restart"@ != "readMemory"@,
        "restart"@ != "state"@,
        "restart"@ != "registers"@,
        "restart"@ != "disconnect"@,
        "restart"@ != "shutdown"@,
        "reset"@ != "readMemory"@,
        "reset"@ != "state"@,
        "reset"@ != "registers"@,
        "reset"@ != "disconnect"@,
        "reset"@ != "shutdown"@,
        "readMemory"@ != "state"@,
        "readMemory"@ != "registers"@,
        "readMemory"@ != "disconnect"@,
        "readMemory"@ != "shutdown"@,
        "state"@ != "registers"@,
        "state"@ != "disconnect"@,
        "state"@ != "shutdown"@,
        "registers"@ != "disconnect"@,
        "registers"@ != "shutdown"@,
        "disconnect"@ != "shutdown"@,
{
    reveal_strlit("initialize");
    reveal_strlit("examples");
    reveal_strlit("launchBytes");
    reveal_strlit("upload");
    reveal_strlit("continue");
    reveal_strlit("pause");
    reveal_strlit("next");
    reveal_strlit("step");
    reveal_strlit("restart");
    reveal_strlit("reset");
    reveal_strlit("readMemory");
    reveal_strlit("state");
    reveal_strlit("registers");
    reveal_strlit("disconnect");
    reveal_strlit("shutdown");
    assert("initialize"@.len() == 10);
    assert("examples"@.len() == 8);
    assert("launchBytes"@.len() == 11);
    assert("upload"@.len() == 6);
    assert("continue"@.len() == 8);
    assert("pause"@.len() == 5);
    assert("next"@.len() == 4);
    assert("step"@.len() == 4);
    assert("restart"@.len() == 7);
    assert("reset"@.len() == 5);
    assert("readMemory"@.len() == 10);
    assert("state"@.len() == 5);
    assert("registers"@.len() == 9);
    assert("disconnect"@.len() == 10);
    assert("shutdown"@.len() == 8);
    assert("initialize"@[0] != "readMemory"@[0]);
    assert("initialize"@[0] != "disconnect"@[0]);
    assert("examples"@[0] != "continue"@[0]);
    assert("examples"@[0] != "shutdown"@[0]);
    assert("continue"@[0] != "shutdown"@[0]);
    assert("pause"@[0] != "reset"@[0]);
    assert("pause"@[0] != "state"@[0]);
    assert("next"@[0] != "step"@[0]);
    assert("reset"@[0] != "state"@[0]);
    assert("readMemory"@[0] != "disconnect"@[0]);
}

/// Showing a machine that is running moves it on first, by 5000 instructions, and drops what that
/// wrote out; one that is not running is shown as it is.
pub proof fn law_looking_moves_on(machine: WasmModel)
    ensures
        machine.core.running && !machine.core.halted ==> ({
            let moved = machine.core.continued(5000);
            &&& machine.looked_at().loaded == machine.loaded
            &&& machine.looked_at().core.machine.output.len() == 0
            &&& machine.looked_at().core == (DebugModel {
                machine: MachineModel { output: Seq::empty(), ..moved.machine },
                ..moved
            })
        }),
        !machine.core.running || machine.core.halted ==> machine.looked_at() == machine,
{
}

/// A program that was loaded is kept by name and bytes, to be started again; a file that is no
/// program leaves the one that was kept before.
pub proof fn law_kept_program(machine: WasmModel, name: Seq<char>, blob: Seq<u8>)
    ensures
        machine.launched(name, blob).core == machine.core.launched(name, Some(blob)),
        elf::verdict(blob) == ElfVerdict::Accepted ==> machine.launched(name, blob).loaded == Some(
            (name, blob),
        ),
        elf::verdict(blob) != ElfVerdict::Accepted ==> machine.launched(name, blob).loaded
            == machine.loaded,
{
}

/// A new machine has no program, the sizes of the browser and the costs of an empty configuration.
pub proof fn law_new_machine()
    ensures
        ({
            let machine = WasmModel::fresh();
            &&& machine.loaded is None
            &&& machine.core.halted && !machine.core.running
            &&& machine.core.options == browser::sizes()
            &&& machine.core.config.default_syscall_cycles == 500
            &&& machine.core.config.io_cycles_per_byte == 20
            &&& machine.core.config.l1_latency == 3
            &&& machine.core.config.l2_latency == 11
            &&& machine.core.config.l3_latency == 50
            &&& machine.core.config.memory_latency == 125
            &&& machine.core.config.store_latency == 1
            &&& forall|code: u32| !machine.core.config.syscall_cycles.contains_key(code)
        }),
{
}

/// The program to load has a name, and comes as a list of bytes, or else as a text in Base64; what
/// reading either complained about is told.
pub proof fn law_program_to_load(
    args: Option<&Arguments>,
    list: Result<Seq<u8>, Seq<char>>,
    decoded: Result<Seq<u8>, Seq<char>>,
)
    ensures
        ({
            let name = control::argument_of(args, "name"@);
            let named = name is Some && name->0 is Text;
            let text = name->0->Text_0;
            let listed = control::argument_of(args, "bytes"@) is Some;
            let base64 = control::argument_of(args, "bytesBase64"@);
            let encoded = base64 is Some && base64->0 is Text;
            let found = launch_args_from(args, list, decoded);
            &&& args is None ==> found is Err && found->Err_0 == "missing arguments"@
            &&& args is Some && !named ==> found is Err && found->Err_0 == "missing argument: name"@
            &&& named && listed && list is Ok ==> found is Ok && found->Ok_0 == (text, list->Ok_0)
            &&& named && listed && list is Err ==> found is Err && found->Err_0
                == "invalid bytes array: "@ + list->Err_0
            &&& named && !listed && encoded && decoded is Ok ==> found is Ok && found->Ok_0 == (
                text,
                decoded->Ok_0,
            )
            &&& named && !listed && encoded && decoded is Err ==> found is Err && found->Err_0
                == "invalid bytesBase64 payload: "@ + decoded->Err_0
            &&& named && !listed && !encoded ==> found is Err && found->Err_0
                == "missing launch bytes payload (bytes or bytesBase64)"@
        }),
{
}

/// The bytes of the program to load are read from the arguments that carry them.
pub proof fn law_bytes_to_load(args: Option<&Arguments>)
    ensures
        launch_args(args) == launch_args_from(args, launch_list(args), launch_decoded(args)),
        control::argument_of(args, "bytes"@) matches Some(value) ==> launch_list(args)
            == json::listed_bytes(value),
        control::argument_of(args, "bytesBase64"@) matches Some(ValueModel::Text(encoded))
            ==> launch_decoded(args) == control::base64_decoded(encoded),
{
}

/// A command that loads a program does so under the name it was given, and tells where the program
/// starts; or it tells what is wrong with its arguments or with the program.
pub proof fn law_commands_that_load(
    before: WasmModel,
    after: WasmModel,
    command: Seq<char>,
    args: Option<&Arguments>,
    outcome: Outcome,
)
    requires
        done(before, after, command, args, outcome),
        command == "launchBytes"@ || command == "upload"@,
    ensures
        ({
            let found = launch_args(args);
            let (name, blob) = found->Ok_0;
            let accepted = elf::verdict(blob) == ElfVerdict::Accepted;
            &&& found is Err ==> after == before && outcome is Err && outcome->Err_0@
                == found->Err_0
            &&& found is Ok ==> after == before.launched(name, blob)
            &&& found is Ok && accepted ==> (outcome matches Ok(
                WasmBody::Loaded { entry, entry_hex },
            ) && entry == elf::entry(blob) && entry_hex@ == debug_ui::hex8(elf::entry(blob)))
            &&& found is Ok && !accepted ==> outcome is Err && outcome->Err_0@
                == vm::not_a_program_text(name, blob)
        }),
{
    lemma_names_apart();
    assert(launch_done(before, after, args, outcome));
}

/// A command to start again loads the program that was kept, and shows the machine; there has to
/// be one.
pub proof fn law_commands_that_restart(
    before: WasmModel,
    after: WasmModel,
    command: Seq<char>,
    args: Option<&Arguments>,
    outcome: Outcome,
)
    requires
        done(before, after, command, args, outcome),
        command == "restart"@ || command == "reset"@,
    ensures
        ({
            let (name, blob) = before.loaded->0;
            let accepted = elf::verdict(blob) == ElfVerdict::Accepted;
            &&& before.loaded is None ==> after == before && outcome is Err && outcome->Err_0@
                == "No loaded program to reset"@
            &&& before.loaded is Some && accepted ==> after == before.launched(
                name,
                blob,
            ).looked_at() && (outcome matches Ok(WasmBody::State { state }) && after.core.shown_by(
                state,
                true,
            ))
            &&& before.loaded is Some && !accepted ==> after == before.launched(name, blob)
                && outcome is Err && outcome->Err_0@ == vm::not_a_program_text(name, blob)
        }),
{
    lemma_names_apart();
}

/// A command to go on starts the machine and one to pause pauses it; steps step it, once unless
/// told otherwise, drop what was written out, and show the machine. Without a program it neither
/// goes on nor steps.
pub proof fn law_commands_that_move(
    before: WasmModel,
    after: WasmModel,
    command: Seq<char>,
    args: Option<&Arguments>,
    outcome: Outcome,
)
    requires
        done(before, after, command, args, outcome),
    ensures
        ({
            let count = control::u64_value(args, "count"@, 1);
            let steps = command == "next"@ || command == "step"@;
            let refused = outcome is Err && outcome->Err_0@ == "Program is halted or not loaded"@;
            let seen = outcome matches Ok(WasmBody::State { state }) && after.core.shown_by(
                state,
                true,
            );
            let moved = before.core.stepped(count->Ok_0);
            &&& command == "continue"@ ==> after == (WasmModel {
                core: before.core.started(),
                ..before
            })
            &&& command == "continue"@ && before.core.halted ==> refused
            &&& command == "continue"@ && !before.core.halted ==> (outcome matches Ok(WasmBody::Ack))
            &&& command == "pause"@ ==> after.core == before.core.paused() && after.loaded
                == before.loaded && seen
            &&& steps && count is Err ==> after == before && outcome is Err && outcome->Err_0@
                == count->Err_0
            &&& steps && count is Ok && before.core.halted ==> after == before && refused
            &&& steps && count is Ok && !before.core.halted ==> seen && after == (WasmModel {
                core: DebugModel {
                    machine: MachineModel { output: Seq::empty(), ..moved.machine },
                    ..moved
                },
                ..before
            }).looked_at()
        }),
{
    lemma_names_apart();
}

/// A command to read gives the bytes from an address on, 64 from zero unless told otherwise, and
/// changes nothing.
pub proof fn law_commands_that_read(
    before: WasmModel,
    after: WasmModel,
    command: Seq<char>,
    args: Option<&Arguments>,
    outcome: Outcome,
)
    requires
        done(before, after, command, args, outcome),
        command == "readMemory"@,
    ensures
        ({
            let from = control::u32_value(args, "addr"@, 0);
            let count = control::u32_value(args, "len"@, 64);
            &&& after == before
            &&& from is Err ==> outcome is Err && outcome->Err_0@ == from->Err_0
            &&& from is Ok && count is Err ==> outcome is Err && outcome->Err_0@ == count->Err_0
            &&& from is Ok && count is Ok ==> (outcome matches Ok(
                WasmBody::Memory { addr, len, bytes },
            ) && addr == from->Ok_0 && len == count->Ok_0 && bytes@ == memory::bytes_at(
                before.core.machine.memory.bytes,
                from->Ok_0,
                count->Ok_0 as nat,
            ))
        }),
{
    lemma_names_apart();
}

/// The other commands: to begin, for the programs that come with the machine, of which there are
/// none, to show the machine, and to end, which stops it. A command that there is not is refused.
pub proof fn law_other_commands(
    before: WasmModel,
    after: WasmModel,
    command: Seq<char>,
    args: Option<&Arguments>,
    outcome: Outcome,
)
    requires
        done(before, after, command, args, outcome),
    ensures
        command == "initialize"@ ==> after == before && (outcome matches Ok(WasmBody::Ack)),
        command == "examples"@ ==> after == before && (outcome matches Ok(WasmBody::NoExamples)),
        command == "state"@ || command == "registers"@ ==> after == before.looked_at() && (
        outcome matches Ok(WasmBody::State { state }) && after.core.shown_by(state, true)),
        command == "disconnect"@ || command == "shutdown"@ ==> after.core == (DebugModel {
            running: false,
            ..before.core
        }) && after.loaded == before.loaded && (outcome matches Ok(WasmBody::Ack)),
        !(command == "initialize"@
            || command == "examples"@
            || command == "launchBytes"@
            || command == "upload"@
            || command == "continue"@
            || command == "pause"@
            || command == "next"@
            || command == "step"@
            || command == "restart"@
            || command == "reset"@
            || command == "readMemory"@
            || command == "state"@
            || command == "registers"@
            || command == "disconnect"@
            || command == "shutdown"@) ==> after == before && outcome is Err
            && outcome->Err_0@ == "unsupported control command: "@ + command,
{
    lemma_names_apart();
}

} // verus!
