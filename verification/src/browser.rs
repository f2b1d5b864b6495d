//! The virtual machine behind the requests of a browser.

use crate::config::{self, SimConfigRaw, VmRuntimeOptions};
use crate::control::{
    self, error_response, parse_dump_value, parse_reset_policy, parse_string_value,
    parse_u32_value, parse_u64_value, parse_write_bytes, response, Arguments, ControlRequest,
    ControlResponse,
};
use crate::elf::{self, ElfVerdict};
use crate::memory::{self, MemoryReadResult};
use crate::text;
use crate::vm::{self, HecateVm, VmDump, VmModel, VmState};
use vstd::prelude::*;

verus! {

/// A program that comes with the machine.
#[derive(Debug)]
pub struct BundledExample {
    pub name: String,
    pub bytes: Vec<u8>,
}

/// What comes of a request.
#[derive(Debug)]
pub enum BrowserBody {
    Examples { names: Vec<String> },
    Loaded { entry: u32, entry_hex: String, state: VmState },
    State { state: VmState },
    Read { result: MemoryReadResult },
    Dump { dump: VmDump },
}

/// The virtual machine as a browser sees it.
#[derive(Debug)]
pub struct HecateVmWasm {
    pub vm: HecateVm,
}

/// The answer to a request, or a complaint.
pub type Answer = Result<ControlResponse<BrowserBody>, String>;

/// Whether `names` are the names of the `examples`.
pub open spec fn names_of(names: Seq<String>, examples: Seq<BundledExample>) -> bool {
    &&& names.len() == examples.len()
    &&& forall|i: int| 0 <= i < names.len() ==> (#[trigger] names[i])@ == examples[i].name@
}

/// The position of the first example called `name`.
pub open spec fn position(examples: Seq<BundledExample>, name: Seq<char>) -> Option<int>
    decreases examples.len(),
{
    if examples.len() == 0 {
        None
    } else if examples[0].name@ == name {
        Some(0)
    } else {
        match position(examples.skip(1), name) {
            Some(at) => Some(at + 1),
            None => None,
        }
    }
}

/// The names of the programs that come with the machine.
pub fn builtin_examples(examples: &Vec<BundledExample>) -> (names: Vec<String>)
    ensures
        names_of(names@, examples@),
{
    let mut names: Vec<String> = Vec::new();
    let mut next: usize = 0;
    while next < examples.len()
        invariant
            next <= examples@.len(),
            names@.len() == next,
            forall|i: int| 0 <= i < next ==> (#[trigger] names@[i])@ == examples@[i].name@,
        decreases examples@.len() - next,
    {
        names.push(examples[next].name.clone());
        next = next + 1;
    }
    names
}

/// The program called `name`.
pub fn builtin_example_bytes<'a>(examples: &'a Vec<BundledExample>, name: &str) -> (found: Option<
    &'a BundledExample,
>)
    ensures
        match (found, position(examples@, name@)) {
            (Some(example), Some(at)) => 0 <= at < examples@.len() && *example == examples@[at]
                && example.name@ == name@,
            (None, None) => true,
            _ => false,
        },
{
    let mut next: usize = 0;
    assert(examples@.skip(0) == examples@);
    while next < examples.len()
        invariant
            next <= examples@.len(),
            match (position(examples@.skip(next as int), name@), position(examples@, name@)) {
                (Some(at), Some(whole)) => whole == next + at,
                (None, None) => true,
                _ => false,
            },
        decreases examples@.len() - next,
    {
        if text::same(examples[next].name.as_str(), name) {
            return Some(&examples[next]);
        }
        assert(examples@.skip(next as int).skip(1) == examples@.skip(next + 1));
        next = next + 1;
    }
    None
}

/// Whether `answer` is the complaint `text`.
pub open spec fn complains(answer: Answer, text: Seq<char>) -> bool {
    answer matches Err(complaint) && complaint@ == text
}

/// Whether `answer` is the success of `req`.
pub open spec fn succeeds(answer: Answer, req: ControlRequest) -> bool {
    answer matches Ok(r) && r.succeeds(req.number(), req.command@)
}

/// Whether `answer` is the success of `req`, with nothing more to say.
pub open spec fn acknowledges(answer: Answer, req: ControlRequest) -> bool {
    succeeds(answer, req) && answer->Ok_0.body is None
}

/// Whether `answer` is the success of `req`, and shows the machine as it is `after`.
pub open spec fn shows(answer: Answer, req: ControlRequest, after: VmModel) -> bool {
    &&& succeeds(answer, req)
    &&& answer->Ok_0.body matches Some(BrowserBody::State { state }) && state@ == after.state()
}

/// What a request to load does and answers.
pub open spec fn load_done(
    before: VmModel,
    after: VmModel,
    req: ControlRequest,
    examples: Seq<BundledExample>,
    answer: Answer,
) -> bool {
    match control::string_value(control::args_of(req), "name"@) {
        Err(text) => after == before && complains(answer, text),
        Ok(name) => match position(examples, name) {
            None => after == before && complains(answer, "Unknown example: "@ + name),
            Some(at) => {
                let blob = examples[at].bytes@;
                &&& after == before.after_load(name, blob)
                &&& if elf::verdict(blob) == ElfVerdict::Accepted {
                    &&& succeeds(answer, req)
                    &&& answer->Ok_0.body matches Some(
                        BrowserBody::Loaded { entry, entry_hex, state },
                    ) && entry == elf::entry(blob) && entry_hex@ == "0x"@ + text::hex_padded(
                        entry as nat,
                        8,
                    ) && state@ == after.state()
                } else {
                    complains(answer, vm::not_a_program_text(name, blob))
                }
            },
        },
    }
}

/// What a request to go on does and answers.
pub open spec fn run_done(
    before: VmModel,
    after: VmModel,
    req: ControlRequest,
    answer: Answer,
) -> bool {
    &&& after == before.started()
    &&& if before.halted {
        complains(answer, control::halted_text())
    } else {
        acknowledges(answer, req)
    }
}

/// What a request to let time pass does and answers.
pub open spec fn tick_done(
    before: VmModel,
    after: VmModel,
    req: ControlRequest,
    answer: Answer,
) -> bool {
    match control::u64_value(control::args_of(req), "quantum"@, 5_000) {
        Err(text) => after == before && complains(answer, text),
        Ok(quantum) => after == before.ticked(quantum) && shows(answer, req, after),
    }
}

/// What a request to step that leads to `moved` does and answers.
pub open spec fn moved_done(
    before: VmModel,
    moved: VmModel,
    after: VmModel,
    req: ControlRequest,
    answer: Answer,
) -> bool {
    &&& after == moved
    &&& if before.halted {
        complains(answer, control::halted_text())
    } else {
        shows(answer, req, after)
    }
}

/// What a request for steps does and answers.
pub open spec fn step_done(
    before: VmModel,
    after: VmModel,
    req: ControlRequest,
    answer: Answer,
) -> bool {
    match control::u64_value(control::args_of(req), "count"@, 1) {
        Err(text) => after == before && complains(answer, text),
        Ok(count) => moved_done(before, before.stepped(count), after, req, answer),
    }
}

/// What a request for a reset does and answers.
pub open spec fn reset_done(
    before: VmModel,
    after: VmModel,
    req: ControlRequest,
    seed: u64,
    answer: Answer,
) -> bool {
    match control::reset_policy(control::args_of(req)) {
        Err(text) => after == before && complains(answer, text),
        Ok(policy) => {
            &&& after == before.after_reset(policy, seed)
            &&& match before.loaded_binary {
                Some(binary) if elf::verdict(binary.bytes) != ElfVerdict::Accepted => complains(
                    answer,
                    vm::not_a_program_text(binary.name, binary.bytes),
                ),
                _ => shows(answer, req, after),
            }
        },
    }
}

/// What a request to read does and answers.
pub open spec fn read_done(
    before: VmModel,
    after: VmModel,
    req: ControlRequest,
    answer: Answer,
) -> bool {
    &&& after == before
    &&& match (
        control::u32_value(control::args_of(req), "addr"@, 0),
        control::u32_value(control::args_of(req), "len"@, 64),
    ) {
        (Err(text), _) => complains(answer, text),
        (Ok(_), Err(text)) => complains(answer, text),
        (Ok(addr), Ok(len)) => match before.machine.memory.read_external(addr, len) {
            Ok(read) => {
                &&& succeeds(answer, req)
                &&& answer->Ok_0.body matches Some(BrowserBody::Read { result }) && result@ == read
            },
            Err(error) => complains(answer, error.message),
        },
    }
}

/// What a request to write does and answers.
pub open spec fn write_done(
    before: VmModel,
    after: VmModel,
    req: ControlRequest,
    answer: Answer,
) -> bool {
    match (
        control::u32_value(control::args_of(req), "addr"@, 0),
        control::write_bytes(control::args_of(req)),
    ) {
        (Err(text), _) => after == before && complains(answer, text),
        (Ok(_), Err(text)) => after == before && complains(answer, text),
        (Ok(addr), Ok(bytes)) => {
            &&& after == before.with_memory(before.machine.memory.write_external(addr, bytes))
            &&& match before.machine.memory.write_refusal(
                addr,
                (bytes.len() % 0x1_0000_0000) as u32,
            ) {
                Some(error) => complains(answer, error.message),
                None => shows(answer, req, after),
            }
        },
    }
}

/// What a request to restore a saved machine does and answers, given what reading it gave.
pub open spec fn restore_done(
    before: VmModel,
    after: VmModel,
    req: ControlRequest,
    read: Result<VmDump, String>,
    answer: Answer,
) -> bool {
    match control::dump_complaint(control::args_of(req), read) {
        Some(text) => after == before && complains(answer, text),
        None => after == before.restored(read->Ok_0@) && shows(answer, req, after),
    }
}

/// What a request does and answers.
pub open spec fn done(
    before: VmModel,
    after: VmModel,
    req: ControlRequest,
    examples: Seq<BundledExample>,
    read: Result<VmDump, String>,
    seed: u64,
    answer: Answer,
) -> bool {
    if req.is_foreign() {
        &&& after == before
        &&& answer matches Ok(r) && r.refuses(req.number(), req.command@, control::foreign_text())
    } else if req.command@ == "initialize"@ {
        after == before && acknowledges(answer, req)
    } else if req.command@ == "examples"@ {
        &&& after == before
        &&& succeeds(answer, req)
        &&& answer->Ok_0.body matches Some(BrowserBody::Examples { names }) && names_of(
            names@,
            examples,
        )
    } else if req.command@ == "load"@ {
        load_done(before, after, req, examples, answer)
    } else if req.command@ == "run"@ {
        run_done(before, after, req, answer)
    } else if req.command@ == "tick"@ {
        tick_done(before, after, req, answer)
    } else if req.command@ == "pause"@ {
        after == before.paused() && shows(answer, req, after)
    } else if req.command@ == "step"@ {
        step_done(before, after, req, answer)
    } else if req.command@ == "step_over"@ {
        moved_done(before, before.stepped_over(), after, req, answer)
    } else if req.command@ == "step_out"@ {
        moved_done(before, before.stepped_out(), after, req, answer)
    } else if req.command@ == "reset"@ {
        reset_done(before, after, req, seed, answer)
    } else if req.command@ == "read"@ {
        read_done(before, after, req, answer)
    } else if req.command@ == "write"@ {
        write_done(before, after, req, answer)
    } else if req.command@ == "state"@ {
        after == before && shows(answer, req, after)
    } else if req.command@ == "dump"@ {
        &&& after == before
        &&& succeeds(answer, req)
        &&& answer->Ok_0.body matches Some(BrowserBody::Dump { dump }) && dump@ == before.dump()
    } else if req.command@ == "restore"@ {
        restore_done(before, after, req, read, answer)
    } else {
        &&& after == before
        &&& answer matches Ok(r) && r.refuses(
            req.number(),
            req.command@,
            control::unsupported_text(req.command@),
        )
    }
}

/// Whether a request runs instructions or builds caches, for which a line needs a size.
pub open spec fn moves(req: ControlRequest) -> bool {
    !req.is_foreign() && (req.command@ == "load"@ || req.command@ == "tick"@ || req.command@
        == "step"@ || req.command@ == "step_over"@ || req.command@ == "step_out"@ || req.command@
        == "reset"@)
}

/// Whether the machine, and the saved machine if one was read, have a line size.
pub open spec fn usable(machine: VmModel, read: Result<VmDump, String>) -> bool {
    machine.wf() && (read matches Ok(dump) ==> dump.options.cache_line_size > 0)
}

/// The sizes of the machine that a browser gets.
pub open spec fn sizes() -> VmRuntimeOptions {
    VmRuntimeOptions {
        cache_line_size: 64,
        l1_size: 32768,
        l2_size: 262144,
        l3_size: 8388608,
        max_instructions: None,
    }
}

/// A machine without a program, with the costs of the built-in configuration file, or the
/// complaint about that file; given what reading it gave.
pub open spec fn default_model(built_in: Result<SimConfigRaw, String>) -> Result<
    VmModel,
    Seq<char>,
> {
    match built_in {
        Err(complaint) => Err("failed to parse built-in config: "@ + complaint@),
        Ok(raw) => match config::resolved_table(raw.syscall_cycles@, raw.syscall_cycles@.len()) {
            Ok(found) => Ok(VmModel::fresh(sizes(), config::complete(raw@, found))),
            Err(complaint) => Err("failed to resolve built-in config: "@ + complaint),
        },
    }
}

/// The sizes of the machine that a browser gets.
pub fn default_options() -> (options: VmRuntimeOptions)
    ensures
        options == sizes(),
{
    VmRuntimeOptions {
        cache_line_size: 64,
        l1_size: 32768,
        l2_size: 262144,
        l3_size: 8388608,
        max_instructions: None,
    }
}

/// A machine without a program, with the costs of the built-in configuration file, given what
/// reading that file gave.
pub fn default_vm(built_in: Result<SimConfigRaw, String>) -> (result: Result<HecateVm, String>)
    ensures
        match (result, default_model(built_in)) {
            (Ok(vm), Ok(model)) => vm@ == model && vm@.wf(),
            (Err(complaint), Err(text)) => complaint@ == text,
            _ => false,
        },
{
    let raw = match built_in {
        Ok(raw) => raw,
        Err(complaint) => {
            return Err(
                "failed to parse built-in config: ".to_owned().concat(complaint.as_str()),
            );
        },
    };
    match raw.resolve() {
        Ok(config) => Ok(HecateVm::new(default_options(), config)),
        Err(complaint) => Err(
            "failed to resolve built-in config: ".to_owned().concat(complaint.as_str()),
        ),
    }
}

/// Whether a request runs instructions or builds caches.
pub fn is_moving(req: &ControlRequest) -> (moving: bool)
    ensures
        moving == moves(*req),
{
    let command = req.command.as_str();
    !req.has_foreign_type() && (text::same(command, "load") || text::same(command, "tick")
        || text::same(command, "step") || text::same(command, "step_over") || text::same(
        command,
        "step_out",
    ) || text::same(command, "reset"))
}

/// The answer of success that shows the machine.
fn state_response(req: ControlRequest, state: VmState) -> (answer: Answer)
    ensures
        succeeds(answer, req),
        answer->Ok_0.body == Some(BrowserBody::State { state }),
{
    Ok(response(req.request_id(), req.command, Some(BrowserBody::State { state })))
}

fn borrow_args(req: &ControlRequest) -> (args: Option<&Arguments>)
    ensures
        args == control::args_of(*req),
{
    match &req.arguments {
        Some(args) => Some(args),
        None => None,
    }
}

impl HecateVmWasm {
    /// A machine without a program, given what reading the built-in configuration file gave.
    pub fn new(built_in: Result<SimConfigRaw, String>) -> (result: Result<HecateVmWasm, String>)
        ensures
            match (result, default_model(built_in)) {
                (Ok(wasm), Ok(model)) => wasm.vm@ == model && wasm.vm@.wf(),
                (Err(complaint), Err(text)) => complaint@ == text,
                _ => false,
            },
    {
        match default_vm(built_in) {
            Ok(vm) => Ok(HecateVmWasm { vm }),
            Err(complaint) => Err(complaint),
        }
    }

    /// A machine without a program, given what reading the built-in configuration file gave.
    pub fn create_hecate_vm(built_in: Result<SimConfigRaw, String>) -> (result: Result<
        HecateVmWasm,
        String,
    >)
        ensures
            match (result, default_model(built_in)) {
                (Ok(wasm), Ok(model)) => wasm.vm@ == model && wasm.vm@.wf(),
                (Err(complaint), Err(text)) => complaint@ == text,
                _ => false,
            },
    {
        HecateVmWasm::new(built_in)
    }

    fn do_load(&mut self, req: ControlRequest, examples: &Vec<BundledExample>) -> (answer: Answer)
        requires
            old(self).vm@.wf(),
        ensures
            load_done(old(self).vm@, final(self).vm@, req, examples@, answer),
            final(self).vm@.wf(),
    {
        let name = match parse_string_value(borrow_args(&req), "name") {
            Ok(name) => name,
            Err(complaint) => return Err(complaint),
        };
        let example = match builtin_example_bytes(examples, name.as_str()) {
            Some(example) => example,
            None => return Err("Unknown example: ".to_owned().concat(name.as_str())),
        };
        match self.vm.load(name, example.bytes.as_slice()) {
            Ok(state) => {
                let entry: u32 = self.vm.entry_point;
                let entry_hex = "0x".to_owned().concat(text::to_hex_padded(entry, 8).as_str());
                Ok(
                    response(
                        req.request_id(),
                        req.command,
                        Some(BrowserBody::Loaded { entry, entry_hex, state }),
                    ),
                )
            },
            Err(error) => Err(error.message()),
        }
    }

    fn do_run(&mut self, req: ControlRequest) -> (answer: Answer)
        ensures
            run_done(old(self).vm@, final(self).vm@, req, answer),
            old(self).vm@.wf() ==> final(self).vm@.wf(),
    {
        match self.vm.run() {
            Ok(()) => Ok(response(req.request_id(), req.command, None)),
            Err(error) => Err(error.message()),
        }
    }

    fn do_tick(&mut self, req: ControlRequest) -> (answer: Answer)
        requires
            old(self).vm@.wf(),
        ensures
            tick_done(old(self).vm@, final(self).vm@, req, answer),
            final(self).vm@.wf(),
    {
        match parse_u64_value(borrow_args(&req), "quantum", 5_000) {
            Ok(quantum) => {
                self.vm.tick_running(quantum);
                state_response(req, self.vm.state())
            },
            Err(complaint) => Err(complaint),
        }
    }

    fn do_step(&mut self, req: ControlRequest) -> (answer: Answer)
        requires
            old(self).vm@.wf(),
        ensures
            step_done(old(self).vm@, final(self).vm@, req, answer),
            final(self).vm@.wf(),
    {
        match parse_u64_value(borrow_args(&req), "count", 1) {
            Ok(count) => match self.vm.step_count(count) {
                Ok(state) => state_response(req, state),
                Err(error) => Err(error.message()),
            },
            Err(complaint) => Err(complaint),
        }
    }

    fn do_step_over(&mut self, req: ControlRequest) -> (answer: Answer)
        requires
            old(self).vm@.wf(),
        ensures
            moved_done(
                old(self).vm@,
                old(self).vm@.stepped_over(),
                final(self).vm@,
                req,
                answer,
            ),
            final(self).vm@.wf(),
    {
        match self.vm.step_over() {
            Ok(state) => state_response(req, state),
            Err(error) => Err(error.message()),
        }
    }

    fn do_step_out(&mut self, req: ControlRequest) -> (answer: Answer)
        requires
            old(self).vm@.wf(),
        ensures
            moved_done(
                old(self).vm@,
                old(self).vm@.stepped_out(),
                final(self).vm@,
                req,
                answer,
            ),
            final(self).vm@.wf(),
    {
        match self.vm.step_out() {
            Ok(state) => state_response(req, state),
            Err(error) => Err(error.message()),
        }
    }

    fn do_reset(&mut self, req: ControlRequest, seed: u64) -> (answer: Answer)
        requires
            old(self).vm@.wf(),
        ensures
            reset_done(old(self).vm@, final(self).vm@, req, seed, answer),
            final(self).vm@.wf(),
    {
        match parse_reset_policy(borrow_args(&req)) {
            Ok(policy) => match self.vm.reset_from(policy, seed) {
                Ok(state) => state_response(req, state),
                Err(error) => Err(error.message()),
            },
            Err(complaint) => Err(complaint),
        }
    }

    fn do_read(&self, req: ControlRequest) -> (answer: Answer)
        ensures
            read_done(self.vm@, self.vm@, req, answer),
    {
        let addr: u32 = match parse_u32_value(borrow_args(&req), "addr", 0) {
            Ok(addr) => addr,
            Err(complaint) => return Err(complaint),
        };
        let len: u32 = match parse_u32_value(borrow_args(&req), "len", 64) {
            Ok(len) => len,
            Err(complaint) => return Err(complaint),
        };
        match self.vm.read(addr, len) {
            Ok(result) => Ok(
                response(req.request_id(), req.command, Some(BrowserBody::Read { result })),
            ),
            Err(error) => Err(error.message),
        }
    }

    fn do_write(&mut self, req: ControlRequest) -> (answer: Answer)
        ensures
            write_done(old(self).vm@, final(self).vm@, req, answer),
            old(self).vm@.wf() ==> final(self).vm@.wf(),
    {
        let addr: u32 = match parse_u32_value(borrow_args(&req), "addr", 0) {
            Ok(addr) => addr,
            Err(complaint) => return Err(complaint),
        };
        let bytes = match parse_write_bytes(borrow_args(&req)) {
            Ok(bytes) => bytes,
            Err(complaint) => return Err(complaint),
        };
        match self.vm.write(addr, bytes.as_slice()) {
            Ok(()) => state_response(req, self.vm.state()),
            Err(error) => Err(error.message),
        }
    }

    fn do_restore(&mut self, req: ControlRequest, read: Result<VmDump, String>) -> (answer: Answer)
        ensures
            restore_done(old(self).vm@, final(self).vm@, req, read, answer),
            usable(old(self).vm@, read) ==> final(self).vm@.wf(),
    {
        match parse_dump_value(borrow_args(&req), read) {
            Ok(dump) => match self.vm.restore(dump) {
                Ok(state) => state_response(req, state),
                Err(error) => Err(error.message()),
            },
            Err(complaint) => Err(complaint),
        }
    }

    /// Carries out a request, given the programs that come with the machine, what reading its
    /// argument with a saved machine gave, and where random bytes start from.
    #[verifier::rlimit(40)]
    pub fn execute_from(
        &mut self,
        req: ControlRequest,
        examples: &Vec<BundledExample>,
        read: Result<VmDump, String>,
        seed: u64,
    ) -> (answer: Answer)
        requires
            moves(req) ==> old(self).vm@.wf(),
        ensures
            done(old(self).vm@, final(self).vm@, req, examples@, read, seed, answer),
            usable(old(self).vm@, read) ==> final(self).vm@.wf(),
    {
        if req.has_foreign_type() {
            return Ok(
                error_response(
                    req.request_id(),
                    req.command,
                    "if provided, type must be 'request'".to_owned(),
                ),
            );
        }
        let command = req.command.as_str();
        if text::same(command, "initialize") {
            Ok(response(req.request_id(), req.command, None))
        } else if text::same(command, "examples") {
            let names = builtin_examples(examples);
            Ok(response(req.request_id(), req.command, Some(BrowserBody::Examples { names })))
        } else if text::same(command, "load") {
            self.do_load(req, examples)
        } else if text::same(command, "run") {
            self.do_run(req)
        } else if text::same(command, "tick") {
            self.do_tick(req)
        } else if text::same(command, "pause") {
            let state = self.vm.pause();
            state_response(req, state)
        } else if text::same(command, "step") {
            self.do_step(req)
        } else if text::same(command, "step_over") {
            self.do_step_over(req)
        } else if text::same(command, "step_out") {
            self.do_step_out(req)
        } else if text::same(command, "reset") {
            self.do_reset(req, seed)
        } else if text::same(command, "read") {
            self.do_read(req)
        } else if text::same(command, "write") {
            self.do_write(req)
        } else if text::same(command, "state") {
            state_response(req, self.vm.state())
        } else if text::same(command, "dump") {
            let dump = self.vm.dump();
            Ok(response(req.request_id(), req.command, Some(BrowserBody::Dump { dump })))
        } else if text::same(command, "restore") {
            self.do_restore(req, read)
        } else {
            let message = "unsupported control command: ".to_owned().concat(command);
            Ok(error_response(req.request_id(), req.command, message))
        }
    }

    /// Carries out a request; random bytes start from the time, `nanos` nanoseconds after the
    /// start of 1970.
    pub fn execute(
        &mut self,
        req: ControlRequest,
        examples: &Vec<BundledExample>,
        read: Result<VmDump, String>,
        nanos: Option<u128>,
    ) -> (answer: Answer)
        requires
            moves(req) ==> old(self).vm@.wf(),
        ensures
            done(
                old(self).vm@,
                final(self).vm@,
                req,
                examples@,
                read,
                memory::seed_at(nanos),
                answer,
            ),
            usable(old(self).vm@, read) ==> final(self).vm@.wf(),
    {
        self.execute_from(req, examples, read, memory::seed_from(nanos))
    }

    /// Carries out a request, given what reading it gave; random bytes start from the time,
    /// `nanos` nanoseconds after the start of 1970.
    pub fn control(
        &mut self,
        request: Result<ControlRequest, String>,
        examples: &Vec<BundledExample>,
        read: Result<VmDump, String>,
        nanos: Option<u128>,
    ) -> (answer: Answer)
        requires
            request matches Ok(req) && moves(req) ==> old(self).vm@.wf(),
        ensures
            match request {
                Ok(req) => done(
                    old(self).vm@,
                    final(self).vm@,
                    req,
                    examples@,
                    read,
                    memory::seed_at(nanos),
                    answer,
                ),
                Err(complaint) => final(self).vm@ == old(self).vm@ && complains(
                    answer,
                    "invalid control request: "@ + complaint@,
                ),
            },
            usable(old(self).vm@, read) ==> final(self).vm@.wf(),
    {
        match request {
            Ok(req) => self.execute(req, examples, read, nanos),
            Err(complaint) => Err(
                "invalid control request: ".to_owned().concat(complaint.as_str()),
            ),
        }
    }

    /// The names of the programs that come with the machine.
    pub fn list_examples(&self, examples: &Vec<BundledExample>) -> (names: Vec<String>)
        ensures
            names_of(names@, examples@),
    {
        builtin_examples(examples)
    }
}

/// A request that does not read, or that asks for what there is not, changes nothing.
pub proof fn law_refusal_changes_nothing(
    before: VmModel,
    after: VmModel,
    req: ControlRequest,
    examples: Seq<BundledExample>,
    read: Result<VmDump, String>,
    seed: u64,
    answer: Answer,
)
    requires
        done(before, after, req, examples, read, seed, answer),
        answer matches Ok(r) && !r.success,
    ensures
        after == before,
        answer->Ok_0.message is Some,
        answer->Ok_0.body is None,
{
}

/// Every answer carries the number and the command of its request.
pub proof fn law_answers_name_their_request(
    before: VmModel,
    after: VmModel,
    req: ControlRequest,
    examples: Seq<BundledExample>,
    read: Result<VmDump, String>,
    seed: u64,
    answer: Answer,
)
    requires
        done(before, after, req, examples, read, seed, answer),
        answer is Ok,
    ensures
        answer->Ok_0.id == req.number(),
        answer->Ok_0.seq == req.number(),
        answer->Ok_0.command@ == req.command@,
{
}

/// What the answers are: a complaint is an error with its text; an acknowledgement is a success
/// with nothing more to say, and one that shows the machine has its state.
pub proof fn law_answers(answer: Answer, req: ControlRequest, after: VmModel, text: Seq<char>)
    ensures
        complains(answer, text) <==> answer is Err && answer->Err_0@ == text,
        succeeds(answer, req) <==> answer is Ok && answer->Ok_0.succeeds(
            req.number(),
            req.command@,
        ),
        acknowledges(answer, req) <==> succeeds(answer, req) && answer->Ok_0.body is None,
        shows(answer, req, after) <==> succeeds(answer, req) && (
        answer->Ok_0.body matches Some(BrowserBody::State { state }) && state@ == after.state()),
{
}

/// The program under a name is the first one of that name.
pub proof fn law_bundled_programs(examples: Seq<BundledExample>, name: Seq<char>, at: int)
    requires
        0 <= at <= examples.len(),
        forall|i: int| 0 <= i < at ==> (#[trigger] examples[i]).name@ != name,
        at < examples.len() ==> examples[at].name@ == name,
    ensures
        at < examples.len() ==> position(examples, name) == Some(at),
        at == examples.len() ==> position(examples, name) is None,
    decreases examples.len(),
{
    if at > 0 {
        let rest = examples.skip(1);
        assert(examples[0].name@ != name);
        assert forall|i: int| 0 <= i < at - 1 implies (#[trigger] rest[i]).name@ != name by {
            assert(rest[i] == examples[i + 1]);
        }
        law_bundled_programs(rest, name, at - 1);
    }
}

/// A foreign request is refused, and so is one for a command that there is not; neither moves the
/// machine.
pub proof fn law_refused_requests(
    before: VmModel,
    after: VmModel,
    req: ControlRequest,
    examples: Seq<BundledExample>,
    read: Result<VmDump, String>,
    seed: u64,
    answer: Answer,
)
    requires
        done(before, after, req, examples, read, seed, answer),
    ensures
        req.is_foreign() ==> after == before && answer is Ok && answer->Ok_0.refuses(
            req.number(),
            req.command@,
            "if provided, type must be 'request'"@,
        ),
        !req.is_foreign() && !(req.command@ == "initialize"@
            || req.command@ == "examples"@
            || req.command@ == "load"@
            || req.command@ == "run"@
            || req.command@ == "tick"@
            || req.command@ == "pause"@
            || req.command@ == "step"@
            || req.command@ == "step_over"@
            || req.command@ == "step_out"@
            || req.command@ == "reset"@
            || req.command@ == "read"@
            || req.command@ == "write"@
            || req.command@ == "state"@
            || req.command@ == "dump"@
            || req.command@ == "restore"@) ==> after == before && answer is Ok
            && answer->Ok_0.refuses(
            req.number(),
            req.command@,
            "unsupported control command: "@ + req.command@,
        ),
{
}

/// No two commands have the same name.
proof fn lemma_commands_apart()
    ensures
        "initialize"@ != "examples"@,
        "initialize"@ != "load"@,
        "initialize"@ != "run"@,
        "initialize"@ != "tick"@,
        "initialize"@ != "pause"@,
        "initialize"@ != "step"@,
        "initialize"@ != "step_over"@,
        "initialize"@ != "step_out"@,
        "initialize"@ != "reset"@,
        "initialize"@ != "read"@,
        "initialize"@ != "write"@,
        "initialize"@ != "state"@,
        "initialize"@ != "dump"@,
        "initialize"@ != "restore"@,
        "examples"@ != "load"@,
        "examples"@ != "run"@,
        "examples"@ != "tick"@,
        "examples"@ != "pause"@,
        "examples"@ != "step"@,
        "examples"@ != "step_over"@,
        "examples"@ != "step_out"@,
        "examples"@ != "reset"@,
        "examples"@ != "read"@,
        "examples"@ != "write"@,
        "examples"@ != "state"@,
        "examples"@ != "dump"@,
        "examples"@ != "restore"@,
        "load"@ != "run"@,
        "load"@ != "tick"@,
        "load"@ != "pause"@,
        "load"@ != "step"@,
        "load"@ != "step_over"@,
        "load"@ != "step_out"@,
        "load"@ != "reset"@,
        "load"@ != "read"@,
        "load"@ != "write"@,
        "load"@ != "state"@,
        "load"@ != "dump"@,
        "load"@ != "restore"@,
        "run"@ != "tick"@,
        "run"@ != "pause"@,
        "run"@ != "step"@,
        "run"@ != "step_over"@,
        "run"@ != "step_out"@,
        "run"@ != "reset"@,
        "run"@ != "read"@,
        "run"@ != "write"@,
        "run"@ != "state"@,
        "run"@ != "dump"@,
        "run"@ != "restore"@,
        "tick"@ != "pause"@,
        "tick"@ != "step"@,
        "tick"@ != "step_over"@,
        "tick"@ != "step_out"@,
        "tick"@ != "reset"@,
        "tick"@ != "read"@,
        "tick"@ != "write"@,
        "tick"@ != "state"@,
        "tick"@ != "dump"@,
        "tick"@ != "restore"@,
        "pause"@ != "step"@,
        "pause"@ != "step_over"@,
        "pause"@ != "step_out"@,
        "pause"@ != "reset"@,
        "pause"@ != "read"@,
        "pause"@ != "write"@,
        "pause"@ != "state"@,
        "pause"@ != "dump"@,
        "pause"@ != "restore"@,
        "step"@ != "step_over"@,
        "step"@ != "step_out"@,
        "step"@ != "reset"@,
        "step"@ != "read"@,
        "step"@ != "write"@,
        "step"@ != "state"@,
        "step"@ != "dump"@,
        "step"@ != "restore"@,
        "step_over"@ != "step_out"@,
        "step_over"@ != "reset"@,
        "step_over"@ != "read"@,
        "step_over"@ != "write"@,
        "step_over"@ != "state"@,
        "step_over"@ != "dump"@,
        "step_over"@ != "restore"@,
        "step_out"@ != "reset"@,
        "step_out"@ != "read"@,
        "step_out"@ != "write"@,
        "step_out"@ != "state"@,
        "step_out"@ != "dump"@,
        "step_out"@ != "restore"@,
        "reset"@ != "read"@,
        "reset"@ != "write"@,
        "reset"@ != "state"@,
        "reset"@ != "dump"@,
        "reset"@ != "restore"@,
        "read"@ != "write"@,
        "read"@ != "state"@,
        "read"@ != "dump"@,
        "read"@ != "restore"@,
        "write"@ != "state"@,
        "write"@ != "dump"@,
        "write"@ != "restore"@,
        "state"@ != "dump"@,
        "state"@ != "restore"@,
        "dump"@ != "restore"@,
{
    reveal_strlit("initialize");
    reveal_strlit("examples");
    reveal_strlit("load");
    reveal_strlit("run");
    reveal_strlit("tick");
    reveal_strlit("pause");
    reveal_strlit("step");
    reveal_strlit("step_over");
    reveal_strlit("step_out");
    reveal_strlit("reset");
    reveal_strlit("read");
    reveal_strlit("write");
    reveal_strlit("state");
    reveal_strlit("dump");
    reveal_strlit("restore");
    assert("initialize"@.len() == 10);
    assert("examples"@.len() == 8);
    assert("load"@.len() == 4);
    assert("run"@.len() == 3);
    assert("tick"@.len() == 4);
    assert("pause"@.len() == 5);
    assert("step"@.len() == 4);
    assert("step_over"@.len() == 9);
    assert("step_out"@.len() == 8);
    assert("reset"@.len() == 5);
    assert("read"@.len() == 4);
    assert("write"@.len() == 5);
    assert("state"@.len() == 5);
    assert("dump"@.len() == 4);
    assert("restore"@.len() == 7);
    assert("examples"@[0] != "step_out"@[0]);
    assert("load"@[0] != "tick"@[0]);
    assert("load"@[0] != "step"@[0]);
    assert("load"@[0] != "read"@[0]);
    assert("load"@[0] != "dump"@[0]);
    assert("tick"@[0] != "step"@[0]);
    assert("tick"@[0] != "read"@[0]);
    assert("tick"@[0] != "dump"@[0]);
    assert("pause"@[0] != "reset"@[0]);
    assert("pause"@[0] != "write"@[0]);
    assert("pause"@[0] != "state"@[0]);
    assert("step"@[0] != "read"@[0]);
    assert("step"@[0] != "dump"@[0]);
    assert("reset"@[0] != "write"@[0]);
    assert("reset"@[0] != "state"@[0]);
    assert("read"@[0] != "dump"@[0]);
    assert("write"@[0] != "state"@[0]);
}

/// Each command that only looks leaves the machine as it is, and shows what it was asked for: the
/// names of the programs, the state, or everything there is to save.
pub proof fn law_requests_that_look(
    before: VmModel,
    after: VmModel,
    req: ControlRequest,
    examples: Seq<BundledExample>,
    read: Result<VmDump, String>,
    seed: u64,
    answer: Answer,
)
    requires
        done(before, after, req, examples, read, seed, answer),
        !req.is_foreign(),
    ensures
        req.command@ == "initialize"@ ==> after == before && acknowledges(answer, req),
        req.command@ == "examples"@ ==> after == before && succeeds(answer, req) && (
        answer->Ok_0.body matches Some(BrowserBody::Examples { names }) && names@.len()
            == examples.len() && forall|i: int|
            0 <= i < names@.len() ==> (#[trigger] names@[i])@ == examples[i].name@),
        req.command@ == "state"@ ==> after == before && shows(answer, req, before),
        req.command@ == "dump"@ ==> after == before && succeeds(answer, req) && (
        answer->Ok_0.body matches Some(BrowserBody::Dump { dump }) && dump@ == before.dump()),
{
    lemma_commands_apart();
}

/// Each command that moves the machine does what it is called: `run` starts it, `tick` lets it run
/// for a quantum, which is 5000 unless told otherwise, `pause` pauses it, and the steps step, once
/// unless told otherwise. A machine without a program refuses to run or to step.
pub proof fn law_requests_that_move(
    before: VmModel,
    after: VmModel,
    req: ControlRequest,
    examples: Seq<BundledExample>,
    read: Result<VmDump, String>,
    seed: u64,
    answer: Answer,
)
    requires
        done(before, after, req, examples, read, seed, answer),
        !req.is_foreign(),
    ensures
        ({
            let args = control::args_of(req);
            let refuses = complains(answer, "Program is halted or not loaded"@);
            &&& req.command@ == "run"@ ==> after == before.started() && (if before.halted {
                refuses
            } else {
                acknowledges(answer, req)
            })
            &&& req.command@ == "pause"@ ==> after == before.paused() && shows(answer, req, after)
            &&& req.command@ == "tick"@ ==> match control::u64_value(args, "quantum"@, 5000) {
                Ok(quantum) => after == before.ticked(quantum) && shows(answer, req, after),
                Err(text) => after == before && complains(answer, text),
            }
            &&& req.command@ == "step"@ ==> match control::u64_value(args, "count"@, 1) {
                Ok(count) => after == before.stepped(count) && (if before.halted {
                    refuses
                } else {
                    shows(answer, req, after)
                }),
                Err(text) => after == before && complains(answer, text),
            }
            &&& req.command@ == "step_over"@ ==> after == before.stepped_over() && (
            if before.halted {
                refuses
            } else {
                shows(answer, req, after)
            })
            &&& req.command@ == "step_out"@ ==> after == before.stepped_out() && (
            if before.halted {
                refuses
            } else {
                shows(answer, req, after)
            })
        }),
{
    lemma_commands_apart();
}

/// A request to read reads 64 bytes from address zero unless told otherwise, and leaves the machine
/// as it is.
pub proof fn law_requests_to_read(
    before: VmModel,
    after: VmModel,
    req: ControlRequest,
    examples: Seq<BundledExample>,
    read: Result<VmDump, String>,
    seed: u64,
    answer: Answer,
)
    requires
        done(before, after, req, examples, read, seed, answer),
        !req.is_foreign(),
        req.command@ == "read"@,
    ensures
        ({
            let addr = control::u32_value(control::args_of(req), "addr"@, 0);
            let len = control::u32_value(control::args_of(req), "len"@, 64);
            let found = before.machine.memory.read_external(addr->Ok_0, len->Ok_0);
            let asked = addr is Ok && len is Ok;
            &&& after == before
            &&& addr is Err ==> complains(answer, addr->Err_0)
            &&& addr is Ok && len is Err ==> complains(answer, len->Err_0)
            &&& asked && found is Err ==> complains(answer, found->Err_0.message)
            &&& asked && found is Ok ==> succeeds(answer, req) && (
            answer->Ok_0.body matches Some(BrowserBody::Read { result }) && result@ == found->Ok_0)
        }),
{
    lemma_commands_apart();
    assert(read_done(before, after, req, answer));
}

/// What a request to write does, for as many bytes as an address space has.
proof fn lemma_written_alike(before: VmModel, after: VmModel, req: ControlRequest, answer: Answer)
    requires
        write_done(before, after, req, answer),
    ensures
        ({
            let addr = control::u32_value(control::args_of(req), "addr"@, 0);
            let bytes = control::write_bytes(control::args_of(req));
            let memory = before.machine.memory;
            let refusal = memory.write_refusal(addr->Ok_0, bytes->Ok_0.len() as u32);
            let asked = addr is Ok && bytes is Ok && bytes->Ok_0.len() <= u32::MAX;
            &&& addr is Err ==> after == before && complains(answer, addr->Err_0)
            &&& addr is Ok && bytes is Err ==> after == before && complains(answer, bytes->Err_0)
            &&& asked && refusal is Some ==> after == before && complains(
                answer,
                refusal->0.message,
            )
            &&& asked && refusal is None ==> after == before.with_memory(
                memory.write_raw(addr->Ok_0, bytes->Ok_0),
            ) && shows(answer, req, after)
        }),
{
    let bytes = control::write_bytes(control::args_of(req));
    if bytes is Ok && bytes->Ok_0.len() <= u32::MAX {
        assert((bytes->Ok_0.len() % 0x1_0000_0000) as u32 == bytes->Ok_0.len() as u32);
    }
}

/// A request to write writes the bytes that it was given, at address zero unless told otherwise,
/// and shows the machine, or tells why they were refused.
pub proof fn law_requests_to_write(
    before: VmModel,
    after: VmModel,
    req: ControlRequest,
    examples: Seq<BundledExample>,
    read: Result<VmDump, String>,
    seed: u64,
    answer: Answer,
)
    requires
        done(before, after, req, examples, read, seed, answer),
        !req.is_foreign(),
        req.command@ == "write"@,
    ensures
        ({
            let addr = control::u32_value(control::args_of(req), "addr"@, 0);
            let bytes = control::write_bytes(control::args_of(req));
            let memory = before.machine.memory;
            let refusal = memory.write_refusal(addr->Ok_0, bytes->Ok_0.len() as u32);
            let asked = addr is Ok && bytes is Ok && bytes->Ok_0.len() <= u32::MAX;
            &&& addr is Err ==> after == before && complains(answer, addr->Err_0)
            &&& addr is Ok && bytes is Err ==> after == before && complains(answer, bytes->Err_0)
            &&& asked && refusal is Some ==> after == before && complains(
                answer,
                refusal->0.message,
            )
            &&& asked && refusal is None ==> after == before.with_memory(
                memory.write_raw(addr->Ok_0, bytes->Ok_0),
            ) && shows(answer, req, after)
        }),
{
    assert(write_done(before, after, req, answer)) by {
        lemma_commands_apart();
    }
    lemma_written_alike(before, after, req, answer);
}

/// The commands about programs: `load` loads the program of a name that comes with the machine,
/// and shows where it starts; `reset` starts the loaded one again, with memory treated as the
/// request says; `restore` brings a saved machine back.
pub proof fn law_requests_about_programs(
    before: VmModel,
    after: VmModel,
    req: ControlRequest,
    examples: Seq<BundledExample>,
    read: Result<VmDump, String>,
    seed: u64,
    answer: Answer,
)
    requires
        done(before, after, req, examples, read, seed, answer),
        !req.is_foreign(),
    ensures
        ({
            let args = control::args_of(req);
            let name = control::string_value(args, "name"@);
            let at = position(examples, name->Ok_0);
            let blob = examples[at->0].bytes@;
            let accepted = elf::verdict(blob) == ElfVerdict::Accepted;
            &&& req.command@ == "load"@ && name is Err ==> after == before && complains(
                answer,
                name->Err_0,
            )
            &&& req.command@ == "load"@ && name is Ok && at is None ==> after == before
                && complains(answer, "Unknown example: "@ + name->Ok_0)
            &&& req.command@ == "load"@ && name is Ok && at is Some ==> after == before.after_load(
                name->Ok_0,
                blob,
            )
            &&& req.command@ == "load"@ && name is Ok && at is Some && accepted ==> succeeds(
                answer,
                req,
            ) && (answer->Ok_0.body matches Some(BrowserBody::Loaded { entry, entry_hex, state })
                && entry == elf::entry(blob) && entry_hex@ == "0x"@ + text::hex_padded(
                elf::entry(blob) as nat,
                8,
            ) && state@ == after.state())
            &&& req.command@ == "load"@ && name is Ok && at is Some && !accepted ==> complains(
                answer,
                vm::not_a_program_text(name->Ok_0, blob),
            )
            &&& req.command@ == "reset"@ ==> match control::reset_policy(args) {
                Err(text) => after == before && complains(answer, text),
                Ok(policy) => after == before.after_reset(policy, seed) && (
                before.loaded_binary is Some && elf::verdict(before.loaded_binary->0.bytes)
                    != ElfVerdict::Accepted ==> complains(
                    answer,
                    vm::not_a_program_text(
                        before.loaded_binary->0.name,
                        before.loaded_binary->0.bytes,
                    ),
                )) && (before.loaded_binary is None || elf::verdict(
                    before.loaded_binary->0.bytes,
                ) == ElfVerdict::Accepted ==> shows(answer, req, after)),
            }
            &&& req.command@ == "restore"@ ==> match control::dump_complaint(args, read) {
                Some(text) => after == before && complains(answer, text),
                None => after == before.restored(read->Ok_0@) && shows(answer, req, after),
            }
        }),
{
    lemma_commands_apart();
}

/// The machine that a browser gets has lines of 64 bytes, and caches of 32 KiB, 256 KiB and 8 MiB;
/// it has no quota. Its costs are those of the built-in file; a complaint about that file says
/// whether it could not be read or not be understood.
pub proof fn law_default_machine(built_in: Result<SimConfigRaw, String>)
    ensures
        sizes().cache_line_size == 64,
        sizes().l1_size == 32 * 1024,
        sizes().l2_size == 256 * 1024,
        sizes().l3_size == 8 * 1024 * 1024,
        sizes().max_instructions is None,
        built_in is Err ==> default_model(built_in) == Err::<VmModel, Seq<char>>(
            "failed to parse built-in config: "@ + built_in->Err_0@,
        ),
        built_in matches Ok(raw) ==> match config::resolved_table(
            raw.syscall_cycles@,
            raw.syscall_cycles@.len(),
        ) {
            Ok(found) => default_model(built_in) is Ok && default_model(built_in)->Ok_0.config
                == config::complete(raw@, found) && default_model(built_in)->Ok_0.options
                == sizes() && default_model(built_in)->Ok_0.halted,
            Err(complaint) => default_model(built_in) == Err::<VmModel, Seq<char>>(
                "failed to resolve built-in config: "@ + complaint,
            ),
        },
{
}

} // verus!
