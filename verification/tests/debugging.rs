use hecate_vm::config::{SimConfig, VmRuntimeOptions};
use hecate_vm::control::{ArgValue, Arguments, ControlRequest};
use hecate_vm::debug_ui::examples::{
    discover_examples, examples_dir, known_places, normalize, place_in, sort_by_name, Candidate,
    ExampleEntry,
};
use hecate_vm::debug_ui::routes::{bind_address, route, websocket_port, Method, Route};
use hecate_vm::debug_ui::{
    accept_control_request, command_from_request, finish_control_request, handle_command,
    to_control_response, DebugMachine, DebugSnapshot, VmCommand, VmReply,
};

const BASE: u32 = 0x1000;

fn options() -> VmRuntimeOptions {
    VmRuntimeOptions {
        cache_line_size: 64,
        l1_size: 32 * 1024,
        l2_size: 256 * 1024,
        l3_size: 8 * 1024 * 1024,
        max_instructions: None,
    }
}

fn elf(code: &[u32]) -> Vec<u8> {
    let mut out: Vec<u8> = vec![0x7f, 0x45, 0x4c, 0x46, 1, 1, 1, 0, 0, 0, 0, 0, 0, 0, 0, 0];
    out.extend_from_slice(&2u16.to_le_bytes());
    out.extend_from_slice(&243u16.to_le_bytes());
    for word in [1u32, BASE, 52, 0, 0] {
        out.extend_from_slice(&word.to_le_bytes());
    }
    for half in [52u16, 32, 1, 0, 0, 0] {
        out.extend_from_slice(&half.to_le_bytes());
    }
    let len = code.len() as u32 * 4;
    for word in [1u32, 84, BASE, BASE, len, len, 7, 4] {
        out.extend_from_slice(&word.to_le_bytes());
    }
    for word in code {
        out.extend_from_slice(&word.to_le_bytes());
    }
    out
}

/// addi x1, x0, 1; addi x17, x0, 93; ecall
fn program() -> Vec<u8> {
    elf(&[0x0010_0093, 0x05d0_0893, 0x0000_0073])
}

fn machine() -> DebugMachine {
    DebugMachine::new(options(), SimConfig::default())
}

fn launched(code: &[u32]) -> DebugMachine {
    let mut vm = machine();
    vm.load_program("demo.elf".to_string(), Some(&elf(code))).unwrap();
    vm
}

fn state(reply: (VmReply, bool)) -> DebugSnapshot {
    assert!(!reply.1);
    match reply.0 {
        VmReply::State { state } => state,
        _ => panic!("no state"),
    }
}

fn error(reply: (VmReply, bool)) -> String {
    match reply.0 {
        VmReply::Error { message } => message,
        _ => panic!("no error"),
    }
}

fn request(command: &str, entries: Vec<(&str, ArgValue)>) -> ControlRequest {
    ControlRequest {
        id: Some(3),
        request_type: None,
        command: command.to_string(),
        arguments: Some(Arguments {
            entries: entries.into_iter().map(|(key, value)| (key.to_string(), value)).collect(),
        }),
    }
}

#[test]
fn a_fresh_machine_has_no_program() {
    let vm = machine();
    let shown = vm.snapshot();
    assert!(shown.halted && !shown.running);
    assert_eq!(shown.last_stop_reason, "No program loaded");
    assert_eq!(shown.loaded_path, None);
    assert_eq!(shown.pc_hex, "0x00000000");
    assert_eq!(shown.registers, vec![0; 32]);
    assert_eq!(shown.current_instruction, "Unavailable (memory unmapped at PC)");
}

#[test]
fn programs_are_launched_from_files() {
    let mut vm = machine();
    let launch = || VmCommand::Launch { path: "demo.elf".to_string() };
    match handle_command(&mut vm, launch(), Some(&program())) {
        (VmReply::Loaded { entry, entry_hex }, false) => {
            assert_eq!((entry, entry_hex.as_str()), (BASE, "0x00001000"));
        }
        _ => panic!("not loaded"),
    }
    assert_eq!(vm.snapshot().last_stop_reason, "Program loaded");
    assert_eq!(vm.snapshot().loaded_path.as_deref(), Some("demo.elf"));
    assert_eq!(
        error(handle_command(&mut vm, launch(), None)),
        "Failed to load program: demo.elf"
    );
    assert_eq!(
        error(handle_command(&mut vm, launch(), Some(&vec![1, 2]))),
        "Failed to load program: demo.elf"
    );
}

#[test]
fn machines_start_with_a_program() {
    let vm = DebugMachine::launch(
        Some("demo.elf".to_string()),
        Some(&program()),
        options(),
        SimConfig::default(),
    )
    .unwrap();
    assert_eq!(vm.snapshot().pc, BASE);
    let vm = DebugMachine::launch(None, None, options(), SimConfig::default()).unwrap();
    assert!(vm.halted);
    let failed = DebugMachine::launch(
        Some("none.elf".to_string()),
        None,
        options(),
        SimConfig::default(),
    );
    assert_eq!(failed.unwrap_err(), "Failed to load program: none.elf");
}

#[test]
fn machines_step_and_exit() {
    let mut vm = launched(&[0x0010_0093, 0x05d0_0893, 0x0000_0073]);
    let shown = state(handle_command(&mut vm, VmCommand::Next { count: 1 }, None));
    assert_eq!(shown.last_stop_reason, "Step complete");
    assert_eq!((shown.pc, shown.registers[1]), (BASE + 4, 1));
    assert_eq!(shown.current_instruction, "addi x17, x0, 93 (93 08 d0 05)");
    assert_eq!(shown.current_instruction_hex.as_deref(), Some("0x05d00893"));
    let shown = state(handle_command(&mut vm, VmCommand::Next { count: 9 }, None));
    assert_eq!(shown.last_stop_reason, "Program exited");
    assert!(shown.halted);
    assert_eq!(
        error(handle_command(&mut vm, VmCommand::Next { count: 1 }, None)),
        "Program is halted or not loaded"
    );
    assert_eq!(
        error(handle_command(&mut vm, VmCommand::Continue, None)),
        "Program is halted or not loaded"
    );
}

#[test]
fn machines_run_in_quanta() {
    // A loop.
    let mut vm = launched(&[0x0000_006f]);
    assert!(!vm.advance());
    assert!(matches!(
        handle_command(&mut vm, VmCommand::Continue, None),
        (VmReply::Ack, false)
    ));
    assert!(vm.wants_to_run());
    assert!(vm.advance());
    let shown = vm.snapshot();
    assert_eq!(shown.stats.instret, 5_000);
    assert_eq!(shown.last_stop_reason, "Running");
    let shown = state(handle_command(&mut vm, VmCommand::Pause, None));
    assert_eq!(shown.last_stop_reason, "Paused by client");
    assert!(!vm.advance());
    assert_eq!(vm.snapshot().stats.instret, 5_000);
}

#[test]
fn errors_halt_and_quotas_do_not() {
    let mut vm = launched(&[0xffff_ffff]);
    vm.step(1).unwrap();
    assert_eq!(vm.last_stop_reason, "IllegalInstruction");
    assert!(vm.halted);
    // An error that comes with the last instruction of the quota counts as the quota.
    let mut vm = launched(&[0x0010_0073]);
    vm.step(1).unwrap();
    assert!(!vm.halted);
    assert_eq!(vm.last_stop_reason, "Step complete");
    let mut vm = launched(&[0x0010_0073]);
    vm.step(2).unwrap();
    assert!(vm.halted);
    assert_eq!(vm.last_stop_reason, "Ebreak");
    let mut vm = launched(&[0x0000_006f]);
    vm.run_until(Some(3));
    assert_eq!(vm.last_stop_reason, "QuotaReached");
    assert_eq!(vm.machine.stats.instret, 3);
    assert_eq!(vm.effective_quota(Some(4)), Some(4));
}

#[test]
fn programs_are_restarted() {
    let mut vm = launched(&[0x0010_0093, 0x0010_0093]);
    vm.step(1).unwrap();
    let shown = state(handle_command(&mut vm, VmCommand::Restart, Some(&program())));
    assert_eq!((shown.pc, shown.registers[1], shown.stats.instret), (BASE, 0, 0));
    assert_eq!(
        error(handle_command(&mut vm, VmCommand::Restart, None)),
        "Failed to load program: demo.elf"
    );
    let mut empty = machine();
    assert_eq!(
        error(handle_command(&mut empty, VmCommand::Restart, Some(&program()))),
        "No loaded program to reset"
    );
}

#[test]
fn memory_is_shown() {
    let mut vm = launched(&[0x0010_0093]);
    let read = VmCommand::ReadMemory { addr: BASE + 2, len: 4 };
    match handle_command(&mut vm, read, None) {
        (VmReply::Memory { addr, len, bytes }, false) => {
            assert_eq!((addr, len), (BASE + 2, 4));
            assert_eq!(bytes, vec![0x10, 0x00, 0, 0]);
        }
        _ => panic!("no memory"),
    }
}

#[test]
fn commands_that_change_nothing() {
    let mut vm = launched(&[0x0010_0093]);
    assert!(matches!(handle_command(&mut vm, VmCommand::Initialize, None), (VmReply::Ack, false)));
    assert!(matches!(handle_command(&mut vm, VmCommand::Shutdown, None), (VmReply::Ack, true)));
    let shown = state(handle_command(&mut vm, VmCommand::State, None));
    assert_eq!(shown.pc, BASE);
    assert_eq!(shown.last_stop_reason, "Program loaded");
}

#[test]
fn refused_commands_change_nothing() {
    let mut vm = machine();
    let before = vm.snapshot();
    for command in [VmCommand::Continue, VmCommand::Next { count: 4 }, VmCommand::Restart] {
        assert!(matches!(handle_command(&mut vm, command, None), (VmReply::Error { .. }, false)));
    }
    let after = vm.snapshot();
    assert_eq!(after.last_stop_reason, before.last_stop_reason);
    assert_eq!((after.running, after.halted, after.pc), (before.running, before.halted, before.pc));
}

#[test]
fn output_is_taken() {
    // Writes one byte of the program: a0 = 1, a1 = 0x1000, a2 = 1, a7 = 64.
    let mut vm = launched(&[0x0010_0513, 0x0000_15b7, 0x0010_0613, 0x0400_0893, 0x0000_0073]);
    vm.step(5).unwrap();
    assert_eq!(vm.take_output(), vec![0x13]);
    assert_eq!(vm.take_output(), Vec::<u8>::new());
}

#[test]
fn requests_become_commands() {
    let command = |name: &str| command_from_request(&request(name, vec![]));
    assert!(matches!(command("initialize"), Ok(VmCommand::Initialize)));
    assert!(matches!(command("continue"), Ok(VmCommand::Continue)));
    assert!(matches!(command("pause"), Ok(VmCommand::Pause)));
    assert!(matches!(command("next"), Ok(VmCommand::Next { count: 1 })));
    assert!(matches!(command("restart"), Ok(VmCommand::Restart)));
    assert!(matches!(command("reset"), Ok(VmCommand::Restart)));
    assert!(matches!(command("readMemory"), Ok(VmCommand::ReadMemory { addr: 0, len: 64 })));
    assert!(matches!(command("state"), Ok(VmCommand::State)));
    assert!(matches!(command("registers"), Ok(VmCommand::State)));
    assert!(matches!(command("disconnect"), Ok(VmCommand::Shutdown)));
    assert!(matches!(command("shutdown"), Ok(VmCommand::Shutdown)));
    let launch = request("load", vec![("path", ArgValue::Text("a.elf".to_string()))]);
    assert!(matches!(command_from_request(&launch), Ok(VmCommand::Launch { path }) if path == "a.elf"));
    let step = request("step", vec![("count", ArgValue::Text("0x10".to_string()))]);
    assert!(matches!(command_from_request(&step), Ok(VmCommand::Next { count: 16 })));
    assert_eq!(command("launch").unwrap_err(), "missing argument: path");
    assert_eq!(command("fly").unwrap_err(), "unsupported control command: fly");
    let read = request("readMemory", vec![("len", ArgValue::Other("null".to_string())), ("addr", ArgValue::Other("null".to_string()))]);
    assert_eq!(command_from_request(&read).unwrap_err(), "invalid value for addr");
}

#[test]
fn requests_are_accepted_or_refused() {
    assert!(matches!(
        accept_control_request(&request("pause", vec![])),
        Ok(VmCommand::Pause)
    ));
    let answer = accept_control_request(&request("fly", vec![])).unwrap_err();
    assert_eq!((answer.id, answer.seq, answer.success), (3, 3, false));
    assert_eq!(answer.message.as_deref(), Some("unsupported control command: fly"));
    assert!(answer.body.is_none());
    let mut foreign = request("pause", vec![]);
    foreign.request_type = Some("event".to_string());
    let answer = accept_control_request(&foreign).unwrap_err();
    assert_eq!(answer.message.as_deref(), Some("if provided, type must be 'request'"));
    assert_eq!(answer.command, "pause");
}

#[test]
fn replies_become_responses() {
    let answer = to_control_response(5, "pause".to_string(), VmReply::Ack);
    assert_eq!((answer.id, answer.seq, answer.success), (5, 5, true));
    assert!(matches!(answer.body, Some(VmReply::Ack)));
    let failed = VmReply::Error { message: "no".to_string() };
    let answer = to_control_response(5, "pause".to_string(), failed);
    assert!(!answer.success && answer.body.is_none());
    assert_eq!(answer.message.as_deref(), Some("no"));
    let answer = finish_control_request(request("pause", vec![]), Ok(VmReply::Ack));
    assert_eq!((answer.id, answer.success), (3, true));
    let answer = finish_control_request(request("pause", vec![]), Err("gone".to_string()));
    assert_eq!((answer.id, answer.success), (3, false));
    assert_eq!(answer.message.as_deref(), Some("gone"));
}

#[test]
fn pages_are_routed() {
    assert_eq!(route(Method::Get, "/"), Route::Page);
    assert_eq!(route(Method::Get, "/api/v1/examples"), Route::Examples);
    assert_eq!(route(Method::Get, "/assets/examples.json"), Route::ExamplesManifest);
    assert_eq!(route(Method::Get, "/assets/wasm/hecate_vm_wasm.js"), Route::WasmShim);
    assert_eq!(route(Method::Post, "/api/v1/control"), Route::Control);
    assert_eq!(route(Method::Get, "/api/v1/control"), Route::NotFound);
    assert_eq!(route(Method::Post, "/"), Route::NotFound);
    assert_eq!(route(Method::Other, "/"), Route::NotFound);
    assert_eq!(bind_address(8581), "127.0.0.1:8581");
    assert_eq!(websocket_port(8581), 8582);
    assert_eq!(websocket_port(u16::MAX), u16::MAX);
}

#[test]
fn paths_are_normalized() {
    assert_eq!(normalize("./a/b"), "./a/b");
    assert_eq!(normalize("a/b"), "./a/b");
    assert_eq!(normalize("././a"), "./a");
    assert_eq!(normalize("a\\b"), "./a/b");
    assert_eq!(normalize(""), "./");
    assert_eq!(normalize("../a"), "./../a");
    assert_eq!(normalize(&normalize("a\\b")), normalize("a\\b"));
}

fn candidate(name: &str, path: &str, exists: bool) -> Candidate {
    Candidate { name: name.to_string(), path: path.to_string(), exists }
}

#[test]
fn examples_are_discovered() {
    let found = discover_examples(&vec![
        candidate("rust", "./b/rust.elf", true),
        candidate("gone", "./b/gone.elf", false),
        candidate("hello", "b\\hello.elf", true),
        candidate("again", "./b/rust.elf", true),
        candidate("Zed", "./z.elf", true),
    ]);
    let shown: Vec<(&str, &str)> =
        found.iter().map(|entry| (entry.name.as_str(), entry.path.as_str())).collect();
    assert_eq!(
        shown,
        vec![("Zed", "./z.elf"), ("hello", "./b/hello.elf"), ("rust", "./b/rust.elf")]
    );
}

#[test]
fn examples_are_sorted_and_kept() {
    let entry = |name: &str, path: &str| ExampleEntry {
        name: name.to_string(),
        path: path.to_string(),
    };
    let sorted = sort_by_name(vec![
        entry("b", "1"),
        entry("ab", "2"),
        entry("b", "3"),
        entry("a", "4"),
        entry("", "5"),
    ]);
    let paths: Vec<&str> = sorted.iter().map(|entry| entry.path.as_str()).collect();
    assert_eq!(paths, vec!["5", "4", "2", "1", "3"]);
}

#[test]
fn examples_are_looked_for_in_places() {
    let places = known_places();
    let names: Vec<&str> = places.iter().map(|place| place.name.as_str()).collect();
    assert_eq!(
        names,
        vec![
            "hello_world",
            "linked_list",
            "vector_contiguous",
            "rust_hello",
            "rust_hello (cargo target)",
        ]
    );
    assert_eq!(
        places[0].path,
        "./target/hecate-rv32-build/examples-build/hello_world/hello_world.elf"
    );
    assert_eq!(
        places[4].path,
        "./examples/rust_hello/target/riscv32im-hecate-none-elf/release/rust_hello.elf"
    );
    assert_eq!(examples_dir(), "./target/hecate-rv32-build/examples-build");
    let place = place_in("./some/demo", Some("demo"));
    assert_eq!((place.name.as_str(), place.path.as_str()), ("demo", "./some/demo/demo.elf"));
    let place = place_in("./some/x", None);
    assert_eq!((place.name.as_str(), place.path.as_str()), ("example", "./some/x/example.elf"));
}
