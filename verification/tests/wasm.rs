use base64::Engine;
use hecate_vm::control::{ArgValue, Arguments, ControlRequest, ListItem};
use hecate_vm::json::{read_listed_bytes, to_json};
use hecate_vm::wasm::{
    create_hecate_vm, parse_launch_bytes_args, parse_launch_bytes_from, HecateVmWasm, WasmBody,
};

const BASE: u32 = 0x1000;

fn elf(code: &[u32]) -> Vec<u8> {
    let mut out: Vec<u8> = vec![0x7f, 0x45, 0x4c, 0x46, 1, 1, 1, 0, 0, 0, 0, 0, 0, 0, 0, 0];
    out.extend_from_slice(&2u16.to_le_bytes());
    out.extend_from_slice(&243u16.to_le_bytes());
    for word in [1u32, BASE, 52, 0, 0] {
        out.extend_from_slice(&word.to_le_bytes());
    }
    for half in [52u16, 32, 1, 0, 0, 0] {
        out.extend_from_slice(&half.to_le_bytes());
    }
    let len = code.len() as u32 * 4;
    for word in [1u32, 84, BASE, BASE, len, len, 7, 4] {
        out.extend_from_slice(&word.to_le_bytes());
    }
    for word in code {
        out.extend_from_slice(&word.to_le_bytes());
    }
    out
}

fn args(entries: Vec<(&str, ArgValue)>) -> Arguments {
    Arguments {
        entries: entries.into_iter().map(|(key, value)| (key.to_string(), value)).collect(),
    }
}

fn text(value: &str) -> ArgValue {
    ArgValue::Text(value.to_string())
}

fn numbers(items: &[u64]) -> ArgValue {
    ArgValue::List(items.iter().map(|n| ListItem::UInt(*n)).collect())
}

fn loaded(code: &[u32]) -> HecateVmWasm {
    let mut wasm = HecateVmWasm::new();
    wasm.load_bytes(elf(code), "demo".to_string()).unwrap();
    wasm
}

fn ask(wasm: &mut HecateVmWasm, command: &str) -> Result<WasmBody, String> {
    wasm.execute(command, None)
}

#[test]
fn launch_arguments() {
    let given = |bytes: ArgValue| args(vec![("name", text("a")), ("bytes", bytes)]);
    let read = |bytes: ArgValue| parse_launch_bytes_args(Some(&given(bytes)));
    assert_eq!(read(numbers(&[])).unwrap(), ("a".to_string(), vec![]));
    assert_eq!(read(numbers(&[7])).unwrap(), ("a".to_string(), vec![7]));
    assert_eq!(read(numbers(&[0, 1, 255])).unwrap(), ("a".to_string(), vec![0, 1, 255]));
    assert_eq!(
        read(numbers(&[1, 256])).unwrap_err(),
        "invalid bytes array: invalid value: integer `256`, expected u8"
    );
    assert_eq!(
        read(ArgValue::List(vec![
            ListItem::UInt(1),
            ListItem::Other("-1".to_string()),
        ]))
        .unwrap_err(),
        "invalid bytes array: invalid value: integer `-1`, expected u8"
    );
    assert_eq!(
        read(text("a\"b")).unwrap_err(),
        "invalid bytes array: invalid type: string \"a\\\"b\", expected a sequence"
    );
    assert_eq!(
        read(ArgValue::UInt(5)).unwrap_err(),
        "invalid bytes array: invalid type: integer `5`, expected a sequence"
    );
    assert_eq!(
        read(ArgValue::Other("null".to_string())).unwrap_err(),
        "invalid bytes array: invalid type: null, expected a sequence"
    );
    let both = args(vec![
        ("name", text("a")),
        ("bytes", numbers(&[3])),
        ("bytesBase64", text("AQI=")),
    ]);
    assert_eq!(parse_launch_bytes_args(Some(&both)).unwrap(), ("a".to_string(), vec![3]));
    let encoded = args(vec![("name", text("a")), ("bytesBase64", text("AQI="))]);
    assert_eq!(parse_launch_bytes_args(Some(&encoded)).unwrap(), ("a".to_string(), vec![1, 2]));
    let broken = args(vec![("name", text("a")), ("bytesBase64", text("?"))]);
    assert!(parse_launch_bytes_args(Some(&broken))
        .unwrap_err()
        .starts_with("invalid bytesBase64 payload: "));
    let nothing = args(vec![("name", text("a")), ("bytesBase64", ArgValue::UInt(1))]);
    assert_eq!(
        parse_launch_bytes_args(Some(&nothing)).unwrap_err(),
        "missing launch bytes payload (bytes or bytesBase64)"
    );
    let unnamed = args(vec![("name", ArgValue::Other("true".to_string()))]);
    assert_eq!(parse_launch_bytes_args(Some(&unnamed)).unwrap_err(), "missing argument: name");
    assert_eq!(parse_launch_bytes_args(None).unwrap_err(), "missing arguments");
}

#[test]
fn launch_arguments_from_what_was_read() {
    let list = args(vec![("name", text("a")), ("bytes", numbers(&[]))]);
    let none = || Err("none".to_string());
    assert_eq!(
        parse_launch_bytes_from(Some(&list), Ok(vec![4]), none()).unwrap(),
        ("a".to_string(), vec![4])
    );
    assert_eq!(
        parse_launch_bytes_from(Some(&list), none(), Ok(vec![4])).unwrap_err(),
        "invalid bytes array: none"
    );
    let encoded = args(vec![("name", text("a")), ("bytesBase64", text("AQI="))]);
    assert_eq!(
        parse_launch_bytes_from(Some(&encoded), none(), Ok(vec![5])).unwrap(),
        ("a".to_string(), vec![5])
    );
    assert_eq!(
        parse_launch_bytes_from(Some(&encoded), Ok(vec![5]), none()).unwrap_err(),
        "invalid bytesBase64 payload: none"
    );
}

#[test]
fn arguments_are_written_as_json() {
    assert_eq!(to_json(&ArgValue::UInt(12)), "12");
    assert_eq!(to_json(&text("a\"b")), "\"a\\\"b\"");
    assert_eq!(to_json(&numbers(&[])), "[]");
    assert_eq!(to_json(&numbers(&[1, 23, 456])), "[1,23,456]");
    assert_eq!(to_json(&ArgValue::Other("{}".to_string())), "{}");
    assert_eq!(read_listed_bytes(&numbers(&[9, 10])).unwrap(), vec![9, 10]);
}

#[test]
fn programs_are_launched_from_lists() {
    let blob = elf(&[0x0010_0093]);
    let bytes: Vec<u64> = blob.iter().map(|byte| *byte as u64).collect();
    let given = args(vec![("name", text("demo")), ("bytes", numbers(&bytes))]);
    let mut wasm = create_hecate_vm();
    assert!(matches!(
        wasm.command("upload", Some(&given)).unwrap(),
        WasmBody::Loaded { entry: BASE, .. }
    ));
    assert_eq!(wasm.loaded.as_ref().unwrap().bytes, blob);
}

#[test]
fn programs_come_as_base64() {
    let blob = elf(&[0x0010_0093]);
    let encoded = base64::engine::general_purpose::STANDARD.encode(&blob);
    let mut wasm = create_hecate_vm();
    let given = args(vec![("name", text("demo")), ("bytesBase64", text(&encoded))]);
    match wasm.execute("launchBytes", Some(&given)).unwrap() {
        WasmBody::Loaded { entry, entry_hex } => {
            assert_eq!((entry, entry_hex.as_str()), (BASE, "0x00001000"));
        }
        _ => panic!("not loaded"),
    }
    assert_eq!(wasm.loaded.as_ref().unwrap().bytes, blob);
}

#[test]
fn programs_come_as_bytes() {
    let mut wasm = HecateVmWasm::new();
    let (entry, entry_hex, path) =
        wasm.load_bytes(elf(&[0x0010_0093]), "demo".to_string()).unwrap();
    assert_eq!((entry, entry_hex.as_str(), path.as_str()), (BASE, "0x00001000", "demo"));
    assert_eq!(
        wasm.load_bytes(vec![1], "bad".to_string()).unwrap_err(),
        "ELF parse failed for bad: file too short to contain headers"
    );
    // The program that was loaded before is still the one to go back to.
    assert_eq!(wasm.loaded.as_ref().unwrap().name, "demo");
}

#[test]
fn a_running_machine_moves_when_it_is_looked_at() {
    let mut wasm = loaded(&[0x0000_006f]);
    assert!(matches!(ask(&mut wasm, "continue"), Ok(WasmBody::Ack)));
    match ask(&mut wasm, "state").unwrap() {
        WasmBody::State { state } => {
            assert_eq!(state.stats.instret, 5_000);
            assert_eq!(state.last_stop_reason, "Running");
        }
        _ => panic!("no state"),
    }
    match ask(&mut wasm, "pause").unwrap() {
        WasmBody::State { state } => {
            assert_eq!(state.stats.instret, 5_000);
            assert_eq!(state.last_stop_reason, "Paused by client");
        }
        _ => panic!("no state"),
    }
    ask(&mut wasm, "continue").unwrap();
    assert!(matches!(ask(&mut wasm, "shutdown"), Ok(WasmBody::Ack)));
    assert_eq!(wasm.snapshot().stats.instret, 5_000);
}

#[test]
fn output_is_dropped() {
    // Writes one byte, and goes on.
    let mut wasm =
        loaded(&[0x0010_0513, 0x0000_15b7, 0x0010_0613, 0x0400_0893, 0x0000_0073, 0x13, 0x13]);
    let five = args(vec![("count", ArgValue::UInt(5))]);
    match wasm.execute("step", Some(&five)).unwrap() {
        WasmBody::State { state } => assert_eq!(state.stats.io_bytes_written, 1),
        _ => panic!("no state"),
    }
    assert!(wasm.core.machine.output.is_empty());
}

#[test]
fn compressed_calls_are_named() {
    let mut wasm = loaded(&[0x2001_2001]);
    assert_eq!(wasm.snapshot().current_instruction, "c.jal (01 20)");
    assert_eq!(wasm.core.snapshot().current_instruction, "c.unknown (01 20)");
}

#[test]
fn programs_start_over() {
    let mut wasm = loaded(&[0x0010_0093, 0x0020_0093]);
    match ask(&mut wasm, "next").unwrap() {
        WasmBody::State { state } => assert_eq!(state.registers[1], 1),
        _ => panic!("no state"),
    }
    match ask(&mut wasm, "restart").unwrap() {
        WasmBody::State { state } => assert_eq!((state.pc, state.registers[1]), (BASE, 0)),
        _ => panic!("no state"),
    }
    assert_eq!(
        ask(&mut HecateVmWasm::new(), "reset").unwrap_err(),
        "No loaded program to reset"
    );
}

#[test]
fn other_commands() {
    let mut wasm = HecateVmWasm::new();
    assert!(matches!(ask(&mut wasm, "initialize"), Ok(WasmBody::Ack)));
    assert!(matches!(ask(&mut wasm, "examples"), Ok(WasmBody::NoExamples)));
    assert_eq!(ask(&mut wasm, "continue").unwrap_err(), "Program is halted or not loaded");
    assert_eq!(ask(&mut wasm, "step").unwrap_err(), "Program is halted or not loaded");
    assert_eq!(ask(&mut wasm, "fly").unwrap_err(), "unsupported control command: fly");
    let mut wasm = loaded(&[0x0010_0093]);
    let place = args(vec![("addr", text("0x1000")), ("len", ArgValue::UInt(2))]);
    match wasm.command("readMemory", Some(&place)).unwrap() {
        WasmBody::Memory { addr, len, bytes } => {
            assert_eq!((addr, len, bytes), (BASE, 2, vec![0x93, 0]));
        }
        _ => panic!("no memory"),
    }
}

#[test]
fn requests_are_answered() {
    let mut wasm = loaded(&[0x0010_0093]);
    let request = |command: &str| ControlRequest {
        id: Some(4),
        request_type: None,
        command: command.to_string(),
        arguments: None,
    };
    let answer = wasm.control(request("step"));
    assert_eq!((answer.id, answer.seq, answer.success), (4, 4, true));
    assert!(matches!(answer.body, Some(WasmBody::State { .. })));
    let answer = wasm.control(request("fly"));
    assert_eq!((answer.id, answer.seq, answer.success), (4, 4, false));
    assert_eq!(answer.message.as_deref(), Some("unsupported control command: fly"));
    assert!(answer.body.is_none());
}
