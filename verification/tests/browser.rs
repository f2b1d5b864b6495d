use hecate_vm::browser::{
    builtin_example_bytes, default_options, is_moving, Answer, BrowserBody, BundledExample, HecateVmWasm,
};
use hecate_vm::config::SimConfigRaw;
use hecate_vm::control::{
    parse_base64_bytes, parse_reset_policy, parse_string_value, parse_u32_value, parse_u64_value,
    parse_write_bytes, ArgValue, Arguments, ControlRequest, ListItem,
};
use hecate_vm::memory::MemoryReadResult;
use hecate_vm::vm::{ResetMemoryPolicy, VmDump, VmState, VmStopReason};

const BASE: u32 = 0x1000;

fn elf(code: &[u32]) -> Vec<u8> {
    let mut out: Vec<u8> = vec![0x7f, 0x45, 0x4c, 0x46, 1, 1, 1, 0, 0, 0, 0, 0, 0, 0, 0, 0];
    out.extend_from_slice(&2u16.to_le_bytes());
    out.extend_from_slice(&243u16.to_le_bytes());
    for word in [1u32, BASE, 52, 0, 0] {
        out.extend_from_slice(&word.to_le_bytes());
    }
    for half in [52u16, 32, 1, 0, 0, 0] {
        out.extend_from_slice(&half.to_le_bytes());
    }
    let len = code.len() as u32 * 4;
    for word in [1u32, 84, BASE, BASE, len, len, 7, 4] {
        out.extend_from_slice(&word.to_le_bytes());
    }
    for word in code {
        out.extend_from_slice(&word.to_le_bytes());
    }
    out
}

fn examples() -> Vec<BundledExample> {
    vec![
        // addi x1, x0, 1; addi x2, x0, 2; ebreak
        BundledExample {
            name: "demo".to_string(),
            bytes: elf(&[0x0010_0093, 0x0020_0113, 0x0010_0073]),
        },
        BundledExample { name: "broken".to_string(), bytes: vec![1, 2, 3] },
    ]
}

fn args(entries: Vec<(&str, ArgValue)>) -> Option<Arguments> {
    Some(Arguments {
        entries: entries.into_iter().map(|(key, value)| (key.to_string(), value)).collect(),
    })
}

fn text(value: &str) -> ArgValue {
    ArgValue::Text(value.to_string())
}

fn request(command: &str, arguments: Option<Arguments>) -> ControlRequest {
    ControlRequest { id: Some(7), request_type: None, command: command.to_string(), arguments }
}

fn no_dump() -> Result<VmDump, String> {
    Err("none".to_string())
}

fn wasm() -> HecateVmWasm {
    HecateVmWasm::new(Ok(SimConfigRaw::default())).unwrap()
}

fn ask(wasm: &mut HecateVmWasm, command: &str, arguments: Option<Arguments>) -> Answer {
    wasm.execute(request(command, arguments), &examples(), no_dump(), Some(7))
}

fn state_of(answer: Answer) -> VmState {
    let answer = answer.unwrap();
    assert!(answer.success);
    assert_eq!((answer.id, answer.seq), (7, 7));
    match answer.body {
        Some(BrowserBody::State { state }) => state,
        _ => panic!("no state"),
    }
}

fn loaded() -> HecateVmWasm {
    let mut wasm = wasm();
    ask(&mut wasm, "load", args(vec![("name", text("demo"))])).unwrap();
    wasm
}

#[test]
fn arguments_that_are_numbers() {
    let given = args(vec![
        ("a", ArgValue::UInt(5)),
        ("big", ArgValue::UInt(0x1_0000_0002)),
        ("hex", text("0x10")),
        ("dec", text("12")),
        ("bad", text("0xq")),
        ("worse", text("q")),
        ("list", ArgValue::List(vec![])),
    ]);
    let given = given.as_ref();
    assert_eq!(parse_u32_value(given, "a", 1), Ok(5));
    assert_eq!(parse_u32_value(given, "big", 1), Ok(2));
    assert_eq!(parse_u64_value(given, "big", 1), Ok(0x1_0000_0002));
    assert_eq!(parse_u32_value(given, "hex", 1), Ok(16));
    assert_eq!(parse_u64_value(given, "dec", 1), Ok(12));
    assert_eq!(parse_u32_value(given, "none", 1), Ok(1));
    assert_eq!(parse_u64_value(None, "a", 3), Ok(3));
    assert_eq!(
        parse_u32_value(given, "bad", 1).unwrap_err(),
        "invalid hex value for bad: invalid digit found in string"
    );
    assert_eq!(
        parse_u64_value(given, "worse", 1).unwrap_err(),
        "invalid decimal value for worse: invalid digit found in string"
    );
    assert_eq!(parse_u32_value(given, "list", 1).unwrap_err(), "invalid value for list");
}

#[test]
fn the_first_of_two_arguments_counts() {
    let given = args(vec![("a", ArgValue::UInt(1)), ("a", ArgValue::UInt(2))]);
    assert_eq!(parse_u32_value(given.as_ref(), "a", 0), Ok(1));
}

#[test]
fn arguments_that_are_texts() {
    let given = args(vec![("name", text("demo")), ("n", ArgValue::UInt(1))]);
    assert_eq!(parse_string_value(given.as_ref(), "name").unwrap(), "demo");
    assert_eq!(parse_string_value(None, "name").unwrap_err(), "missing arguments");
    assert_eq!(
        parse_string_value(given.as_ref(), "path").unwrap_err(),
        "missing argument: path"
    );
    assert_eq!(
        parse_string_value(given.as_ref(), "n").unwrap_err(),
        "argument n must be a string"
    );
}

#[test]
fn arguments_in_base64() {
    let given = args(vec![("data", text("aGVsbG8=")), ("bad", text("aGVsbG8"))]);
    assert_eq!(parse_base64_bytes(given.as_ref(), "data").unwrap(), b"hello");
    assert!(parse_base64_bytes(given.as_ref(), "bad")
        .unwrap_err()
        .starts_with("invalid base64 value for bad: "));
    assert_eq!(parse_base64_bytes(None, "data").unwrap_err(), "missing arguments");
}

#[test]
fn bytes_to_write() {
    let list = |items: Vec<Option<u64>>| {
        let items = items.into_iter().map(|item| match item {
            Some(n) => ListItem::UInt(n),
            None => ListItem::Other("null".to_string()),
        });
        args(vec![("bytes", ArgValue::List(items.collect()))])
    };
    assert_eq!(
        parse_write_bytes(list(vec![Some(0), Some(255)]).as_ref()).unwrap(),
        vec![0, 255]
    );
    assert_eq!(
        parse_write_bytes(list(vec![Some(0), Some(256), None]).as_ref()).unwrap_err(),
        "byte value 256 is outside the range 0..=255"
    );
    assert_eq!(
        parse_write_bytes(list(vec![Some(0), None, Some(256)]).as_ref()).unwrap_err(),
        "argument bytes must be an array of integers"
    );
    let both = args(vec![("bytes", ArgValue::List(vec![])), ("bytesBase64", text("AQI="))]);
    assert_eq!(parse_write_bytes(both.as_ref()).unwrap(), vec![1, 2]);
    let number = args(vec![("bytesBase64", ArgValue::UInt(1))]);
    assert_eq!(
        parse_write_bytes(number.as_ref()).unwrap_err(),
        "argument bytesBase64 must be a string"
    );
    assert_eq!(
        parse_write_bytes(args(vec![]).as_ref()).unwrap_err(),
        "missing argument: bytes or bytesBase64"
    );
    assert_eq!(
        parse_write_bytes(args(vec![("bytes", text("x"))]).as_ref()).unwrap_err(),
        "argument bytes must be an array of integers"
    );
    assert_eq!(parse_write_bytes(None).unwrap_err(), "missing arguments");
}

#[test]
fn reset_policies() {
    let policy = |value: ArgValue| parse_reset_policy(args(vec![("policy", value)]).as_ref());
    assert_eq!(parse_reset_policy(None), Ok(ResetMemoryPolicy::Ignore));
    assert_eq!(parse_reset_policy(args(vec![]).as_ref()), Ok(ResetMemoryPolicy::Ignore));
    assert_eq!(policy(text("ignore")), Ok(ResetMemoryPolicy::Ignore));
    assert_eq!(policy(text("zero")), Ok(ResetMemoryPolicy::Zero));
    assert_eq!(policy(text("random")), Ok(ResetMemoryPolicy::Randomize));
    assert_eq!(policy(text("randomize")), Ok(ResetMemoryPolicy::Randomize));
    assert_eq!(policy(text("burn")).unwrap_err(), "unsupported reset policy: burn");
    assert_eq!(policy(ArgValue::Other("null".to_string())).unwrap_err(), "argument policy must be a string");
}

#[test]
fn a_machine_needs_its_configuration() {
    assert_eq!(
        HecateVmWasm::new(Err("broken".to_string())).unwrap_err(),
        "failed to parse built-in config: broken"
    );
    let raw = SimConfigRaw {
        syscall_cycles: vec![("x".to_string(), 1)],
        ..SimConfigRaw::default()
    };
    assert!(HecateVmWasm::create_hecate_vm(Ok(raw))
        .unwrap_err()
        .starts_with("failed to resolve built-in config: invalid syscall key in config: "));
    assert_eq!(wasm().vm.options(), default_options());
    assert_eq!(default_options().l3_size, 8 * 1024 * 1024);
}

#[test]
fn examples_are_listed_and_found() {
    let all = examples();
    assert_eq!(wasm().list_examples(&all), vec!["demo", "broken"]);
    assert_eq!(builtin_example_bytes(&all, "broken").unwrap().bytes, vec![1, 2, 3]);
    assert!(builtin_example_bytes(&all, "none").is_none());
    match ask(&mut wasm(), "examples", None).unwrap().body {
        Some(BrowserBody::Examples { names }) => assert_eq!(names, vec!["demo", "broken"]),
        _ => panic!("no examples"),
    }
}

#[test]
fn foreign_requests_are_refused() {
    let mut wasm = loaded();
    let mut req = request("step", None);
    req.request_type = Some("event".to_string());
    let answer = wasm.execute(req, &examples(), no_dump(), Some(7)).unwrap();
    assert!(!answer.success && answer.body.is_none());
    assert_eq!((answer.id, answer.seq), (7, 7));
    assert_eq!(answer.command, "step");
    assert_eq!(answer.message.as_deref(), Some("if provided, type must be 'request'"));
    assert_eq!(wasm.vm.state().pc, BASE);
    let mut req = request("step", None);
    req.request_type = Some("request".to_string());
    req.id = None;
    let answer = wasm.execute(req, &examples(), no_dump(), Some(7)).unwrap();
    assert_eq!((answer.id, answer.seq, answer.success), (0, 0, true));
    assert_eq!(wasm.vm.state().pc, BASE + 4);
}

#[test]
fn unknown_commands_are_refused() {
    let mut wasm = loaded();
    let answer = ask(&mut wasm, "fly", None).unwrap();
    assert!(!answer.success && answer.body.is_none());
    assert_eq!(answer.message.as_deref(), Some("unsupported control command: fly"));
    assert_eq!(wasm.vm.state().pc, BASE);
    let answer = ask(&mut wasm, "initialize", None).unwrap();
    assert!(answer.success && answer.body.is_none() && answer.message.is_none());
}

#[test]
fn programs_are_loaded_by_name() {
    let mut wasm = wasm();
    let answer = ask(&mut wasm, "load", args(vec![("name", text("demo"))])).unwrap();
    match answer.body {
        Some(BrowserBody::Loaded { entry, entry_hex, state }) => {
            assert_eq!((entry, entry_hex.as_str()), (BASE, "0x00001000"));
            assert_eq!(state.loaded_binary_name.as_deref(), Some("demo"));
        }
        _ => panic!("not loaded"),
    }
    assert_eq!(
        ask(&mut wasm, "load", args(vec![("name", text("none"))])).unwrap_err(),
        "Unknown example: none"
    );
    assert_eq!(ask(&mut wasm, "load", None).unwrap_err(), "missing arguments");
    assert_eq!(
        ask(&mut wasm, "load", args(vec![("name", text("broken"))])).unwrap_err(),
        "ELF parse failed for broken: file too short to contain headers"
    );
}

#[test]
fn machines_run_in_ticks() {
    let mut wasm = loaded();
    assert!(ask(&mut wasm, "run", None).unwrap().body.is_none());
    assert!(wasm.vm.is_running());
    let one = args(vec![("quantum", ArgValue::UInt(1))]);
    let state = state_of(ask(&mut wasm, "tick", one));
    assert_eq!(state.pc, BASE + 4);
    assert!(matches!(state.stop_reason, VmStopReason::Running));
    let state = state_of(ask(&mut wasm, "pause", None));
    assert!(matches!(state.stop_reason, VmStopReason::Paused));
    ask(&mut wasm, "run", None).unwrap();
    let state = state_of(ask(&mut wasm, "tick", None));
    assert!(matches!(state.stop_reason, VmStopReason::Breakpoint { .. }));
    assert_eq!(
        ask(&mut wasm, "tick", args(vec![("quantum", text("x"))])).unwrap_err(),
        "invalid decimal value for quantum: invalid digit found in string"
    );
}

#[test]
fn machines_step() {
    let mut wasm = loaded();
    assert_eq!(state_of(ask(&mut wasm, "step", None)).registers[1], 1);
    let two = args(vec![("count", text("0x2"))]);
    let state = state_of(ask(&mut wasm, "step", two));
    assert!(matches!(state.stop_reason, VmStopReason::Breakpoint { .. }));
    let mut wasm = loaded();
    assert_eq!(state_of(ask(&mut wasm, "step_over", None)).pc, BASE + 4);
    // The return register now holds an address that execution never comes to.
    let state = state_of(ask(&mut wasm, "step_out", None));
    assert_eq!(state.pc, BASE + 12);
    assert!(matches!(state.stop_reason, VmStopReason::Breakpoint { .. }));
}

#[test]
fn machines_without_program_complain() {
    let mut wasm = wasm();
    for command in ["run", "step", "step_over", "step_out"] {
        assert_eq!(
            ask(&mut wasm, command, None).unwrap_err(),
            "Program is halted or not loaded"
        );
    }
    assert!(state_of(ask(&mut wasm, "state", None)).halted);
}

#[test]
fn memory_is_read_and_written() {
    let mut wasm = loaded();
    let place = || ("addr", ArgValue::UInt(BASE as u64 + 8));
    let bytes = ("bytes", ArgValue::List(vec![ListItem::UInt(9), ListItem::UInt(8)]));
    state_of(ask(&mut wasm, "write", args(vec![place(), bytes])));
    let answer = ask(&mut wasm, "read", args(vec![place(), ("len", ArgValue::UInt(2))])).unwrap();
    match answer.body {
        Some(BrowserBody::Read { result: MemoryReadResult::Full { addr, len, bytes } }) => {
            assert_eq!((addr, len, bytes), (BASE + 8, 2, vec![9, 8]));
        }
        _ => panic!("not read"),
    }
    assert_eq!(
        ask(&mut wasm, "read", None).unwrap_err(),
        "address 0x00000000 is out of bounds (valid range 0x00001000..=0x0000100b)"
    );
    assert_eq!(ask(&mut wasm, "write", args(vec![place()])).unwrap_err(),
        "missing argument: bytes or bytesBase64");
    assert_eq!(
        ask(&mut wasm, "read", args(vec![("len", text("?"))])).unwrap_err(),
        "invalid decimal value for len: invalid digit found in string"
    );
}

#[test]
fn machines_are_reset() {
    let mut wasm = loaded();
    ask(&mut wasm, "step", None).unwrap();
    let state = state_of(ask(&mut wasm, "reset", args(vec![("policy", text("zero"))])));
    assert_eq!(state.pc, BASE);
    assert_eq!(
        ask(&mut wasm, "reset", args(vec![("policy", text("burn"))])).unwrap_err(),
        "unsupported reset policy: burn"
    );
    let mut first = loaded();
    let mut second = loaded();
    for wasm in [&mut first, &mut second] {
        let req = request("reset", args(vec![("policy", text("random"))]));
        wasm.execute_from(req, &examples(), no_dump(), 5).unwrap();
    }
    assert_eq!(first.vm.machine.memory.bytes, second.vm.machine.memory.bytes);
}

#[test]
fn machines_are_saved_and_restored() {
    let mut wasm = loaded();
    ask(&mut wasm, "step", None).unwrap();
    let dump = match ask(&mut wasm, "dump", None).unwrap().body {
        Some(BrowserBody::Dump { dump }) => dump,
        _ => panic!("no dump"),
    };
    let mut other = self::wasm();
    let with_dump = || request("restore", args(vec![("dump", ArgValue::Other("null".to_string()))]));
    let state = state_of(other.execute(with_dump(), &examples(), Ok(dump), Some(7)));
    assert_eq!((state.pc, state.registers[1]), (BASE + 4, 1));
    assert_eq!(
        other.execute(with_dump(), &examples(), no_dump(), Some(7)).unwrap_err(),
        "invalid dump payload: none"
    );
    assert_eq!(ask(&mut other, "restore", None).unwrap_err(), "missing arguments");
    assert_eq!(
        ask(&mut other, "restore", args(vec![])).unwrap_err(),
        "missing argument: dump"
    );
}

#[test]
fn requests_have_to_be_readable() {
    let mut wasm = loaded();
    let answer = wasm.control(Err("no object".to_string()), &examples(), no_dump(), Some(7));
    assert_eq!(answer.unwrap_err(), "invalid control request: no object");
    let answer = wasm.control(Ok(request("step", None)), &examples(), no_dump(), Some(7));
    assert_eq!(state_of(answer).pc, BASE + 4);
}

#[test]
fn a_machine_without_line_size_still_shows_itself() {
    let mut wasm = loaded();
    let mut dump = wasm.vm.dump();
    dump.options.cache_line_size = 0;
    let restore = request("restore", args(vec![("dump", ArgValue::Other("null".to_string()))]));
    assert!(!is_moving(&restore));
    let state = state_of(wasm.execute(restore, &examples(), Ok(dump), Some(7)));
    assert_eq!(state.pc, BASE);
    assert!(!wasm.vm.is_consistent());
    assert_eq!(state_of(ask(&mut wasm, "state", None)).pc, BASE);
    assert_eq!(state_of(ask(&mut wasm, "pause", None)).pc, BASE);
    for command in ["load", "tick", "step", "step_over", "step_out", "reset"] {
        assert!(is_moving(&request(command, None)));
    }
    for command in ["initialize", "examples", "run", "read", "write", "dump", "other"] {
        assert!(!is_moving(&request(command, None)));
    }
}
