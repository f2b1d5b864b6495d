use hecate_vm::entry::{check_main, MainSignature, SignaturePart};
use hecate_vm::runtime::{
    self, alloc_error, exit, print, puts, write_i32, write_stderr, write_stdout, write_u32,
    BumpAllocator, Console, DebugText, MainReturn, SysWrite, HEAP_SIZE,
};

fn bytes(writes: &[SysWrite]) -> Vec<(i32, &[u8])> {
    writes.iter().map(|write| (write.fd, write.bytes.as_slice())).collect()
}

#[test]
fn streams() {
    let out = write_stdout(b"abc");
    assert_eq!((out.fd, out.bytes.as_slice()), (1, &b"abc"[..]));
    let err = write_stderr(b"");
    assert_eq!((err.fd, err.bytes.as_slice()), (2, &b""[..]));
    let out = runtime::io::write_stdout(b"x");
    assert_eq!((out.fd, out.bytes.as_slice()), (1, &b"x"[..]));
    let err = runtime::io::write_stderr(b"y");
    assert_eq!((err.fd, err.bytes.as_slice()), (2, &b"y"[..]));
}

#[test]
fn lines_end() {
    assert_eq!(bytes(&puts("h\u{e9}")), vec![(1, &b"h\xc3\xa9"[..]), (1, &b"\n"[..])]);
    assert_eq!(bytes(&runtime::io::puts("")), vec![(1, &b""[..]), (1, &b"\n"[..])]);
}

#[test]
fn texts_come_in_pieces() {
    let pieces = vec!["a".to_string(), "".to_string(), "bc".to_string()];
    assert_eq!(bytes(&print(&pieces)), vec![(1, &b"a"[..]), (1, &b""[..]), (1, &b"bc"[..])]);
    let write = Console.write_str("z");
    assert_eq!((write.fd, write.bytes.as_slice()), (1, &b"z"[..]));
}

#[test]
fn numbers_are_written() {
    assert_eq!(write_u32(0).bytes, b"0");
    assert_eq!(write_u32(10).bytes, b"10");
    assert_eq!(write_u32(u32::MAX).bytes, b"4294967295");
    assert_eq!(bytes(&write_i32(42)), vec![(1, &b"42"[..])]);
    assert_eq!(bytes(&write_i32(-7)), vec![(1, &b"-"[..]), (1, &b"7"[..])]);
    assert_eq!(bytes(&write_i32(i32::MIN)), vec![(1, &b"-"[..]), (1, &b"2147483648"[..])]);
}

#[test]
fn programs_end() {
    assert_eq!(exit(3).code, 3);
    assert_eq!(runtime::process::exit(-1).code, -1);
    assert_eq!(().into_exit_code().code, 0);
    assert_eq!(5i32.into_exit_code().code, 5);
    let fine: Result<i32, DebugText> = Ok(6);
    let end = fine.into_exit_code();
    assert_eq!((end.code, end.writes.len()), (6, 0));
    let text = DebugText { pieces: vec!["\"".to_string(), "gone".to_string(), "\"".to_string()] };
    let failed: Result<(), DebugText> = Err(text);
    let end = failed.into_exit_code();
    assert_eq!(end.code, 1);
    assert_eq!(
        bytes(&end.writes),
        vec![
            (1, &b"main error: "[..]),
            (1, &b"\""[..]),
            (1, &b"gone"[..]),
            (1, &b"\""[..]),
            (1, &b"\n"[..]),
        ]
    );
    let failed: Result<(), DebugText> = Err(DebugText { pieces: vec!["17".to_string()] });
    let told: Vec<u8> =
        failed.into_exit_code().writes.iter().flat_map(|write| write.bytes.clone()).collect();
    assert_eq!(told, b"main error: 17\n");
}

#[test]
fn running_out_of_memory() {
    let (write, end) = alloc_error();
    assert_eq!((write.fd, write.bytes.as_slice()), (2, &b"alloc error\n"[..]));
    assert_eq!(end.code, 1);
}

#[test]
fn allocations_are_aligned_and_apart() {
    let mut heap = BumpAllocator::new();
    let mut taken: Vec<(usize, usize)> = Vec::new();
    for (size, align) in [(1, 1), (3, 4), (8, 8), (5, 2), (16, 16), (1, 1)] {
        let start = heap.allocate(size, align).unwrap();
        assert_eq!(start % align, 0);
        for (other, len) in &taken {
            assert!(start >= other + len);
        }
        taken.push((start, size));
    }
    assert_eq!(taken[1].0, 4);
    assert_eq!(taken[2].0, 8);
    assert_eq!(taken[4].0, 32);
}

#[test]
fn the_heap_has_an_end() {
    let mut heap = BumpAllocator::new();
    assert_eq!(heap.allocate(0, 8), None);
    assert_eq!(heap.allocate(HEAP_SIZE + 1, 1), None);
    assert_eq!(heap.allocate(usize::MAX, 1), None);
    assert_eq!(heap.next, 0);
    assert_eq!(heap.allocate(HEAP_SIZE, 1), Some(0));
    assert_eq!(heap.allocate(1, 1), None);
    heap.deallocate(0, HEAP_SIZE);
    assert_eq!(heap.allocate(1, 1), None);
    let mut heap = BumpAllocator { next: 1 };
    assert_eq!(heap.allocate(1, 1 << 31), None);
}

fn signature() -> MainSignature {
    MainSignature {
        name: "main".to_string(),
        is_const: false,
        is_async: false,
        inputs: 0,
        generics: 0,
    }
}

#[test]
fn main_functions() {
    assert_eq!(check_main(&signature()), Ok(()));
    let mut sig = signature();
    sig.generics = 1;
    assert_eq!(
        check_main(&sig),
        Err((SignaturePart::Generics, "generic main is not supported".to_string()))
    );
    sig.inputs = 2;
    assert_eq!(
        check_main(&sig),
        Err((SignaturePart::Inputs, "main function must not accept arguments".to_string()))
    );
    sig.is_async = true;
    assert_eq!(
        check_main(&sig),
        Err((SignaturePart::Asyncness, "async main is not supported".to_string()))
    );
    sig.is_const = true;
    assert_eq!(
        check_main(&sig),
        Err((SignaturePart::Constness, "const main is not supported".to_string()))
    );
    sig.name = "start".to_string();
    assert_eq!(
        check_main(&sig),
        Err((
            SignaturePart::Name,
            "#[hecate::main] must be used on a function named `main`".to_string()
        ))
    );
}
